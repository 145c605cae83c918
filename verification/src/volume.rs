//! Volume per 30-minute bucket.

use crate::amount::{amount_limit, Amount};
use crate::codec::{amount_text, format_usdt_amount, USDT_DECIMALS};
use crate::sums::{
    covers_keys, distinct_keys, has_key, keyed_values, lemma_keyed_partition,
    lemma_sum_bounds_element, lemma_sum_insert, lemma_sum_push, lemma_sum_update, lemma_sum_zero,
    lemma_weights_any_order, pair_values, seq_sum, totals_of,
};
use crate::totals::{
    event_values, lemma_event_found, lemma_total_prefix, lemma_total_push, same_events,
    total_value,
};
use crate::types::{TransferEvent, VolumeBucket, VolumeData};
use vstd::prelude::*;

verus! {

/// Width of one bucket, in seconds.
pub const BUCKET_SECONDS: u64 = 1800;

/// Start of the bucket that holds `timestamp`.
pub open spec fn bucket_start(timestamp: u64) -> u64 {
    ((timestamp / BUCKET_SECONDS) * BUCKET_SECONDS) as u64
}

/// For each event its value if it falls into the bucket at `start`, else 0.
pub open spec fn bucket_values(events: Seq<TransferEvent>, start: u64) -> Seq<nat> {
    Seq::new(
        events.len(),
        |k: int|
            if bucket_start(events[k].timestamp) == start {
                events[k].value@
            } else {
                0
            },
    )
}

/// The sum of the values of the events in the bucket at `start`.
pub open spec fn bucket_total(events: Seq<TransferEvent>, start: u64) -> nat {
    seq_sum(bucket_values(events, start))
}

/// Whether some event falls into the bucket at `start`.
pub open spec fn has_bucket(events: Seq<TransferEvent>, start: u64) -> bool {
    exists|k: int| 0 <= k < events.len() && bucket_start((#[trigger] events[k]).timestamp) == start
}

/// The volumes of the chart's buckets, in order.
pub open spec fn chart_volumes(chart: Seq<VolumeBucket>) -> Seq<nat> {
    Seq::new(chart.len(), |i: int| chart[i].volume@)
}

/// The sum of the volumes of all buckets of the chart.
pub open spec fn chart_total(chart: Seq<VolumeBucket>) -> nat {
    seq_sum(chart_volumes(chart))
}

/// Whether the chart has a bucket that starts at `start`.
pub open spec fn chart_holds(chart: Seq<VolumeBucket>, start: u64) -> bool {
    exists|i: int| 0 <= i < chart.len() && (#[trigger] chart[i]).bucket_start == start
}

/// `chart` is the bucket chart of `events`: one bucket for each bucket start
/// that occurs among the events and no other, in strictly ascending order,
/// each with the exact sum of its events' values.
pub open spec fn is_bucket_chart(events: Seq<TransferEvent>, chart: Seq<VolumeBucket>) -> bool {
    &&& forall|i: int, j: int|
        0 <= i < j < chart.len() ==> (#[trigger] chart[i]).bucket_start < (
        #[trigger] chart[j]).bucket_start
    &&& forall|i: int|
        0 <= i < chart.len() ==> has_bucket(events, (#[trigger] chart[i]).bucket_start)
            && chart[i].volume@ == bucket_total(events, chart[i].bucket_start)
    &&& forall|k: int|
        0 <= k < events.len() ==> chart_holds(chart, bucket_start((#[trigger] events[k]).timestamp))
}

/// `chart` is the rendered bucket chart of `events`: strictly ascending bucket
/// starts, exactly those that occur among the events, each with its exact
/// volume written with six decimals.
pub open spec fn is_volume_chart(events: Seq<TransferEvent>, chart: Seq<VolumeData>) -> bool {
    &&& forall|i: int, j: int|
        0 <= i < j < chart.len() ==> (#[trigger] chart[i]).timestamp < (#[trigger] chart[j]).timestamp
    &&& forall|i: int|
        0 <= i < chart.len() ==> has_bucket(events, (#[trigger] chart[i]).timestamp)
            && chart[i].volume@ == amount_text(
            bucket_total(events, chart[i].timestamp),
            USDT_DECIMALS as nat,
        )
    &&& forall|k: int|
        0 <= k < events.len() ==> exists|i: int|
            0 <= i < chart.len() && (#[trigger] chart[i]).timestamp == bucket_start(
                (#[trigger] events[k]).timestamp,
            )
}

/// A bucket start is a multiple of the bucket width and lies at most one
/// width below the timestamp.
pub proof fn lemma_bucket_start(timestamp: u64)
    ensures
        bucket_start(timestamp) % BUCKET_SECONDS == 0,
        bucket_start(timestamp) <= timestamp < bucket_start(timestamp) + BUCKET_SECONDS,
{
}

/// One more event adds its value to its own bucket and to no other.
pub proof fn lemma_bucket_total_push(events: Seq<TransferEvent>, event: TransferEvent, start: u64)
    ensures
        bucket_total(events.push(event), start) == bucket_total(events, start) + (if bucket_start(
            event.timestamp,
        ) == start {
            event.value@
        } else {
            0
        }),
{
    let added: nat = if bucket_start(event.timestamp) == start {
        event.value@
    } else {
        0
    };
    assert(bucket_values(events.push(event), start) =~= bucket_values(events, start).push(added));
    lemma_sum_push(bucket_values(events, start), added);
}

/// A bucket into which no event falls is empty.
pub proof fn lemma_bucket_absent(events: Seq<TransferEvent>, start: u64)
    requires
        !has_bucket(events, start),
    ensures
        bucket_total(events, start) == 0,
{
    let values = bucket_values(events, start);
    assert forall|k: int| 0 <= k < values.len() implies values[k] == 0 by {
        let event = events[k];
        assert(bucket_start(event.timestamp) != start);
    }
    lemma_sum_zero(values);
}

/// A bucket that occurs among the events still occurs after one more event,
/// and so does the bucket of that event.
pub proof fn lemma_has_bucket_push(events: Seq<TransferEvent>, event: TransferEvent, start: u64)
    ensures
        has_bucket(events, start) ==> has_bucket(events.push(event), start),
        has_bucket(events.push(event), bucket_start(event.timestamp)),
{
    let longer = events.push(event);
    if has_bucket(events, start) {
        let k = choose|k: int|
            0 <= k < events.len() && bucket_start((#[trigger] events[k]).timestamp) == start;
        assert(longer[k] == events[k]);
    }
    assert(longer[events.len() as int] == event);
}

/// Adding an event's value to the bucket that already holds its start keeps
/// the chart exact.
proof fn lemma_chart_update(
    events: Seq<TransferEvent>,
    event: TransferEvent,
    chart: Seq<VolumeBucket>,
    slot: int,
    bucket: VolumeBucket,
)
    requires
        is_bucket_chart(events, chart),
        0 <= slot < chart.len(),
        chart[slot].bucket_start == bucket_start(event.timestamp),
        bucket.bucket_start == bucket_start(event.timestamp),
        bucket.volume@ == chart[slot].volume@ + event.value@,
    ensures
        is_bucket_chart(events.push(event), chart.update(slot, bucket)),
        chart_total(chart.update(slot, bucket)) == chart_total(chart) + event.value@,
{
    let longer = events.push(event);
    let changed = chart.update(slot, bucket);
    assert forall|i: int| 0 <= i < changed.len() implies has_bucket(
        longer,
        (#[trigger] changed[i]).bucket_start,
    ) && changed[i].volume@ == bucket_total(longer, changed[i].bucket_start) by {
        let start = chart[i].bucket_start;
        assert(changed[i].bucket_start == start);
        lemma_has_bucket_push(events, event, start);
        lemma_bucket_total_push(events, event, start);
        if i != slot {
            assert(chart[i].bucket_start != chart[slot].bucket_start);
        }
    }
    assert forall|k: int| 0 <= k < longer.len() implies chart_holds(
        changed,
        bucket_start((#[trigger] longer[k]).timestamp),
    ) by {
        if k < events.len() {
            let start = bucket_start(events[k].timestamp);
            assert(chart_holds(chart, start));
            let i = choose|i: int| 0 <= i < chart.len() && (#[trigger] chart[i]).bucket_start == start;
            assert(changed[i].bucket_start == start);
        } else {
            assert(changed[slot].bucket_start == bucket_start(event.timestamp));
        }
    }
    assert forall|i: int, j: int| 0 <= i < j < changed.len() implies (#[trigger] changed[i]).bucket_start
        < (#[trigger] changed[j]).bucket_start by {
        assert(changed[i].bucket_start == chart[i].bucket_start);
        assert(changed[j].bucket_start == chart[j].bucket_start);
    }
    assert(chart_volumes(changed) =~= chart_volumes(chart).update(slot, bucket.volume@));
    lemma_sum_update(chart_volumes(chart), slot, bucket.volume@);
}

/// Inserting a bucket for an event whose start the chart lacks, at the place
/// that keeps the order, keeps the chart exact.
proof fn lemma_chart_insert(
    events: Seq<TransferEvent>,
    event: TransferEvent,
    chart: Seq<VolumeBucket>,
    slot: int,
    bucket: VolumeBucket,
)
    requires
        is_bucket_chart(events, chart),
        0 <= slot <= chart.len(),
        forall|i: int| 0 <= i < slot ==> (#[trigger] chart[i]).bucket_start < bucket.bucket_start,
        slot < chart.len() ==> chart[slot].bucket_start > bucket.bucket_start,
        bucket.bucket_start == bucket_start(event.timestamp),
        bucket.volume@ == event.value@,
    ensures
        is_bucket_chart(events.push(event), chart.insert(slot, bucket)),
        chart_total(chart.insert(slot, bucket)) == chart_total(chart) + event.value@,
{
    let longer = events.push(event);
    let grown = chart.insert(slot, bucket);
    let start = bucket.bucket_start;
    chart.insert_ensures(slot, bucket);
    assert forall|i: int| slot <= i < chart.len() implies (#[trigger] chart[i]).bucket_start
        > start by {
        if i > slot {
            assert(chart[slot].bucket_start < chart[i].bucket_start);
        }
    }
    assert(!has_bucket(events, start)) by {
        if has_bucket(events, start) {
            let k = choose|k: int|
                0 <= k < events.len() && bucket_start((#[trigger] events[k]).timestamp) == start;
            assert(chart_holds(chart, bucket_start(events[k].timestamp)));
            let i = choose|i: int| 0 <= i < chart.len() && (#[trigger] chart[i]).bucket_start == start;
            assert(false);
        }
    }
    lemma_bucket_absent(events, start);
    assert forall|i: int| 0 <= i < grown.len() implies has_bucket(
        longer,
        (#[trigger] grown[i]).bucket_start,
    ) && grown[i].volume@ == bucket_total(longer, grown[i].bucket_start) by {
        let here = grown[i].bucket_start;
        lemma_has_bucket_push(events, event, here);
        lemma_bucket_total_push(events, event, here);
        if i < slot {
            assert(grown[i] == chart[i]);
        } else if i > slot {
            assert(grown[i] == chart[i - 1]);
        }
    }
    assert forall|k: int| 0 <= k < longer.len() implies chart_holds(
        grown,
        bucket_start((#[trigger] longer[k]).timestamp),
    ) by {
        if k < events.len() {
            let wanted = bucket_start(events[k].timestamp);
            assert(chart_holds(chart, wanted));
            let i = choose|i: int| 0 <= i < chart.len() && (#[trigger] chart[i]).bucket_start == wanted;
            if i < slot {
                assert(grown[i].bucket_start == wanted);
            } else {
                assert(grown[i + 1] == chart[i]);
                assert(grown[i + 1].bucket_start == wanted);
            }
        } else {
            assert(grown[slot].bucket_start == bucket_start(event.timestamp));
        }
    }
    assert forall|i: int, j: int| 0 <= i < j < grown.len() implies (#[trigger] grown[i]).bucket_start
        < (#[trigger] grown[j]).bucket_start by {
        if i < slot {
            assert(grown[i] == chart[i]);
        } else if i > slot {
            assert(grown[i] == chart[i - 1]);
        }
        if j < slot {
            assert(grown[j] == chart[j]);
        } else if j > slot {
            assert(grown[j] == chart[j - 1]);
        }
    }
    assert(chart_volumes(grown) =~= chart_volumes(chart).insert(slot, bucket.volume@)) by {
        chart_volumes(chart).insert_ensures(slot, bucket.volume@);
        assert forall|i: int| 0 <= i < grown.len() implies chart_volumes(grown)[i] == chart_volumes(
            chart,
        ).insert(slot, bucket.volume@)[i] by {
            if i < slot {
                assert(grown[i] == chart[i]);
            } else if i > slot {
                assert(grown[i] == chart[i - 1]);
                assert(chart_volumes(chart).insert(slot, bucket.volume@)[(i - 1) + 1]
                    == chart_volumes(chart)[i - 1]);
            }
        }
    }
    lemma_sum_insert(chart_volumes(chart), slot, bucket.volume@);
}

/// The volumes of the buckets of a chart sum to the total of the events: no
/// event is counted twice and none is left out.
pub proof fn lemma_chart_total(events: Seq<TransferEvent>, chart: Seq<VolumeBucket>)
    requires
        is_bucket_chart(events, chart),
    ensures
        chart_total(chart) == total_value(events),
{
    let pairs = Seq::new(
        events.len(),
        |k: int| (bucket_start(events[k].timestamp), events[k].value@),
    );
    let keys = Seq::new(chart.len(), |i: int| chart[i].bucket_start);
    assert(distinct_keys(keys)) by {
        assert forall|i: int, j: int| 0 <= i < j < keys.len() implies keys[i] != keys[j] by {
            assert(chart[i].bucket_start < chart[j].bucket_start);
        }
    }
    assert(covers_keys(pairs, keys)) by {
        assert forall|k: int| 0 <= k < pairs.len() implies has_key(keys, (#[trigger] pairs[k]).0) by {
            let wanted = bucket_start(events[k].timestamp);
            assert(chart_holds(chart, wanted));
            let j = choose|j: int| 0 <= j < chart.len() && (#[trigger] chart[j]).bucket_start == wanted;
            assert(keys[j] == pairs[k].0);
        }
    }
    lemma_keyed_partition(pairs, keys);
    assert(pair_values(pairs) =~= event_values(events));
    assert(totals_of(pairs, keys) =~= chart_volumes(chart)) by {
        assert forall|i: int| 0 <= i < chart.len() implies totals_of(pairs, keys)[i] == chart_volumes(
            chart,
        )[i] by {
            assert(keyed_values(pairs, keys[i]) =~= bucket_values(events, chart[i].bucket_start));
        }
    }
}

/// The points of a volume chart stand at multiples of the bucket width, in
/// strictly ascending order.
pub proof fn lemma_chart_timestamps(events: Seq<TransferEvent>, chart: Seq<VolumeData>)
    requires
        is_volume_chart(events, chart),
    ensures
        forall|i: int| 0 <= i < chart.len() ==> (#[trigger] chart[i]).timestamp % BUCKET_SECONDS == 0,
        forall|i: int, j: int|
            0 <= i < j < chart.len() ==> (#[trigger] chart[i]).timestamp < (
            #[trigger] chart[j]).timestamp,
{
    assert forall|i: int| 0 <= i < chart.len() implies (#[trigger] chart[i]).timestamp
        % BUCKET_SECONDS == 0 by {
        let start = chart[i].timestamp;
        assert(has_bucket(events, start));
        let k = choose|k: int|
            0 <= k < events.len() && bucket_start((#[trigger] events[k]).timestamp) == start;
        lemma_bucket_start(events[k].timestamp);
    }
}

/// Every bucket is the same in whatever order the events come.
pub proof fn lemma_bucket_any_order(
    first: Seq<TransferEvent>,
    second: Seq<TransferEvent>,
    start: u64,
)
    requires
        same_events(first, second),
    ensures
        bucket_total(first, start) == bucket_total(second, start),
        has_bucket(first, start) == has_bucket(second, start),
{
    let in_bucket = |event: TransferEvent|
        if bucket_start(event.timestamp) == start {
            event.value@
        } else {
            0nat
        };
    lemma_weights_any_order(first, second, in_bucket);
    assert(first.map_values(in_bucket) =~= bucket_values(first, start));
    assert(second.map_values(in_bucket) =~= bucket_values(second, start));
    if has_bucket(first, start) {
        let k = choose|k: int|
            0 <= k < first.len() && bucket_start((#[trigger] first[k]).timestamp) == start;
        let at = lemma_event_found(first, second, k);
        assert(bucket_start(second[at].timestamp) == start);
    }
    if has_bucket(second, start) {
        let k = choose|k: int|
            0 <= k < second.len() && bucket_start((#[trigger] second[k]).timestamp) == start;
        let at = lemma_event_found(second, first, k);
        assert(bucket_start(first[at].timestamp) == start);
    }
}

/// The bucket chart does not depend on the order of the events.
pub proof fn lemma_chart_any_order(
    first: Seq<TransferEvent>,
    second: Seq<TransferEvent>,
    chart: Seq<VolumeBucket>,
)
    requires
        same_events(first, second),
        is_bucket_chart(first, chart),
    ensures
        is_bucket_chart(second, chart),
{
    assert forall|i: int| 0 <= i < chart.len() implies has_bucket(
        second,
        (#[trigger] chart[i]).bucket_start,
    ) && chart[i].volume@ == bucket_total(second, chart[i].bucket_start) by {
        lemma_bucket_any_order(first, second, chart[i].bucket_start);
    }
    assert forall|k: int| 0 <= k < second.len() implies chart_holds(
        chart,
        bucket_start((#[trigger] second[k]).timestamp),
    ) by {
        let at = lemma_event_found(second, first, k);
        assert(chart_holds(chart, bucket_start(first[at].timestamp)));
    }
}

/// Two bucket charts of the same events agree up to any place of the first.
proof fn lemma_charts_agree(
    events: Seq<TransferEvent>,
    first: Seq<VolumeBucket>,
    second: Seq<VolumeBucket>,
    place: int,
)
    requires
        is_bucket_chart(events, first),
        is_bucket_chart(events, second),
        0 <= place < first.len(),
    ensures
        place < second.len(),
        forall|i: int|
            0 <= i <= place ==> (#[trigger] first[i]).bucket_start == second[i].bucket_start,
    decreases place,
{
    if place > 0 {
        lemma_charts_agree(events, first, second, place - 1);
    }
    let start = first[place].bucket_start;
    assert(has_bucket(events, start));
    let k = choose|k: int|
        0 <= k < events.len() && bucket_start((#[trigger] events[k]).timestamp) == start;
    assert(chart_holds(second, bucket_start(events[k].timestamp)));
    let j = choose|j: int| 0 <= j < second.len() && (#[trigger] second[j]).bucket_start == start;
    if j < place {
        assert(first[j].bucket_start == second[j].bucket_start);
        assert(first[j].bucket_start < first[place].bucket_start);
    }
    let other = second[place].bucket_start;
    assert(has_bucket(events, other));
    let l = choose|l: int|
        0 <= l < events.len() && bucket_start((#[trigger] events[l]).timestamp) == other;
    assert(chart_holds(first, bucket_start(events[l].timestamp)));
    let m = choose|m: int| 0 <= m < first.len() && (#[trigger] first[m]).bucket_start == other;
    if m < place {
        assert(first[m].bucket_start == second[m].bucket_start);
        assert(second[m].bucket_start < second[place].bucket_start);
    }
    if place < j {
        assert(second[place].bucket_start < second[j].bucket_start);
    }
    if place < m {
        assert(first[place].bucket_start < first[m].bucket_start);
    }
}

/// Events have one bucket chart only.
pub proof fn lemma_chart_unique(
    events: Seq<TransferEvent>,
    first: Seq<VolumeBucket>,
    second: Seq<VolumeBucket>,
)
    requires
        is_bucket_chart(events, first),
        is_bucket_chart(events, second),
    ensures
        first.len() == second.len(),
        forall|i: int|
            0 <= i < first.len() ==> (#[trigger] first[i]).bucket_start == second[i].bucket_start
                && first[i].volume@ == second[i].volume@,
{
    if first.len() > 0 {
        lemma_charts_agree(events, first, second, first.len() - 1);
    }
    if second.len() > 0 {
        lemma_charts_agree(events, second, first, second.len() - 1);
    }
}

/// The start of the bucket that holds `timestamp`.
pub fn bucket_of(timestamp: u64) -> (start: u64)
    ensures
        start == bucket_start(timestamp),
        start % BUCKET_SECONDS == 0,
        start <= timestamp < start + BUCKET_SECONDS,
{
    (timestamp / BUCKET_SECONDS) * BUCKET_SECONDS
}

/// The first place in the chart whose bucket does not start before `start`.
fn find_slot(chart: &Vec<VolumeBucket>, start: u64) -> (slot: usize)
    ensures
        slot <= chart.len(),
        forall|i: int| 0 <= i < slot ==> (#[trigger] chart[i]).bucket_start < start,
        slot < chart.len() ==> chart[slot as int].bucket_start >= start,
{
    let mut slot: usize = 0;
    while slot < chart.len() && chart[slot].bucket_start < start
        invariant
            slot <= chart.len(),
            forall|i: int| 0 <= i < slot ==> (#[trigger] chart[i]).bucket_start < start,
        decreases chart.len() - slot,
    {
        slot += 1;
    }
    slot
}

/// The exact volume of every bucket into which an event falls, in ascending
/// order of bucket start. Buckets without events are left out.
///
/// The sum of all event values must fit in 256 bits.
pub fn bucket_volumes(events: &[TransferEvent]) -> (chart: Vec<VolumeBucket>)
    requires
        total_value(events@) < amount_limit(),
    ensures
        is_bucket_chart(events@, chart@),
        chart_total(chart@) == total_value(events@),
        forall|i: int| 0 <= i < chart.len() ==> (#[trigger] chart[i]).bucket_start % BUCKET_SECONDS == 0,
{
    let mut chart: Vec<VolumeBucket> = Vec::new();
    let mut done: usize = 0;
    proof {
        assert(events@.take(0) =~= Seq::<TransferEvent>::empty());
        assert(chart_volumes(chart@) =~= Seq::<nat>::empty());
        assert(event_values(events@.take(0)) =~= Seq::<nat>::empty());
    }
    while done < events.len()
        invariant
            done <= events.len(),
            total_value(events@) < amount_limit(),
            is_bucket_chart(events@.take(done as int), chart@),
            chart_total(chart@) == total_value(events@.take(done as int)),
        decreases events.len() - done,
    {
        let event = events[done];
        let start = bucket_of(event.timestamp);
        let slot = find_slot(&chart, start);
        let ghost seen = events@.take(done as int);
        proof {
            assert(events@.take(done + 1) =~= seen.push(event));
            lemma_total_push(seen, event);
            lemma_total_prefix(events@, done + 1);
        }
        if slot < chart.len() && chart[slot].bucket_start == start {
            proof {
                lemma_sum_bounds_element(chart_volumes(chart@), slot as int);
            }
            let volume = match chart[slot].volume.checked_add(&event.value) {
                Some(sum) => sum,
                None => Amount::zero(),
            };
            let bucket = VolumeBucket { bucket_start: start, volume };
            proof {
                lemma_chart_update(seen, event, chart@, slot as int, bucket);
            }
            chart.set(slot, bucket);
        } else {
            let bucket = VolumeBucket { bucket_start: start, volume: event.value };
            proof {
                lemma_chart_insert(seen, event, chart@, slot as int, bucket);
            }
            chart.insert(slot, bucket);
        }
        done += 1;
    }
    proof {
        assert(events@.take(done as int) =~= events@);
        assert forall|i: int| 0 <= i < chart.len() implies (#[trigger] chart[i]).bucket_start
            % BUCKET_SECONDS == 0 by {
            let start = chart[i].bucket_start;
            assert(has_bucket(events@, start));
            let k = choose|k: int|
                0 <= k < events@.len() && bucket_start((#[trigger] events@[k]).timestamp) == start;
            lemma_bucket_start(events@[k].timestamp);
        }
    }
    chart
}

/// The volume chart: for every 30-minute bucket into which an event falls,
/// its start and its exact volume as a numeral with six decimals, in
/// ascending order of time.
///
/// The sum of all event values must fit in 256 bits.
pub fn aggregate_volume_by_time(events: &[TransferEvent]) -> (chart: Vec<VolumeData>)
    requires
        total_value(events@) < amount_limit(),
    ensures
        is_volume_chart(events@, chart@),
        forall|i: int| 0 <= i < chart.len() ==> (#[trigger] chart[i]).timestamp % BUCKET_SECONDS == 0,
{
    let buckets = bucket_volumes(events);
    let mut chart: Vec<VolumeData> = Vec::new();
    let mut done: usize = 0;
    while done < buckets.len()
        invariant
            done <= buckets.len(),
            chart.len() == done,
            forall|i: int|
                0 <= i < done ==> (#[trigger] chart[i]).timestamp == buckets[i].bucket_start
                    && chart[i].volume@ == amount_text(buckets[i].volume@, USDT_DECIMALS as nat),
        decreases buckets.len() - done,
    {
        let bucket = buckets[done];
        chart.push(VolumeData { timestamp: bucket.bucket_start, volume: format_usdt_amount(&bucket.volume) });
        done += 1;
    }
    proof {
        assert forall|k: int| 0 <= k < events@.len() implies exists|i: int|
            0 <= i < chart.len() && (#[trigger] chart[i]).timestamp == bucket_start(
                (#[trigger] events@[k]).timestamp,
            ) by {
            let wanted = bucket_start(events@[k].timestamp);
            assert(chart_holds(buckets@, wanted));
            let i = choose|i: int| 0 <= i < buckets.len() && (#[trigger] buckets[i]).bucket_start == wanted;
            assert(chart[i].timestamp == wanted);
        }
        assert forall|i: int, j: int| 0 <= i < j < chart.len() implies (#[trigger] chart[i]).timestamp < (
        #[trigger] chart[j]).timestamp by {
            assert(buckets[i].bucket_start < buckets[j].bucket_start);
        }
        assert forall|i: int| 0 <= i < chart.len() implies has_bucket(
            events@,
            (#[trigger] chart[i]).timestamp,
        ) && chart[i].volume@ == amount_text(
            bucket_total(events@, chart[i].timestamp),
            USDT_DECIMALS as nat,
        ) by {
            assert(has_bucket(events@, buckets[i].bucket_start));
        }
        assert forall|i: int| 0 <= i < chart.len() implies (#[trigger] chart[i]).timestamp
            % BUCKET_SECONDS == 0 by {
            assert(buckets[i].bucket_start % BUCKET_SECONDS == 0);
        }
    }
    chart
}

} // verus!
