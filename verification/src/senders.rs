//! Ranking of senders by volume, cut where 90% of the total is reached.

use crate::address::{address_text, Address};
use crate::amount::{amount_limit, be_value, Amount};
use crate::codec::{amount_text, format_usdt_amount, USDT_DECIMALS};
use crate::sums::{
    distinct_keys, has_key, keyed_values, lemma_keyed_partition, lemma_sum_bounds_element,
    lemma_sum_insert, lemma_sum_prefix, lemma_sum_push, lemma_sum_take_next, lemma_sum_update,
    lemma_sum_zero, lemma_weights_any_order, pair_values, seq_sum, totals_of,
};
use crate::types::{SenderData, SenderEntry, SenderRanking, Share, TransferEvent};
use crate::totals::{
    checked_total_volume, event_values, lemma_event_found, lemma_total_any_order,
    lemma_total_prefix, lemma_total_push, same_events, total_value,
};
use vstd::prelude::*;
use vstd::string::StringExecFns;

verus! {

/// For each event its value if `sender` sent it, else 0.
pub open spec fn sender_values(events: Seq<TransferEvent>, sender: Seq<u8>) -> Seq<nat> {
    Seq::new(
        events.len(),
        |k: int|
            if events[k].from@ == sender {
                events[k].value@
            } else {
                0
            },
    )
}

/// The sum of the values of the events that `sender` sent.
pub open spec fn sender_total(events: Seq<TransferEvent>, sender: Seq<u8>) -> nat {
    seq_sum(sender_values(events, sender))
}

/// Whether `sender` sent some event.
pub open spec fn has_sender(events: Seq<TransferEvent>, sender: Seq<u8>) -> bool {
    exists|k: int| 0 <= k < events.len() && (#[trigger] events[k]).from@ == sender
}

/// The volumes of the entries, in order.
pub open spec fn entry_volumes(entries: Seq<SenderEntry>) -> Seq<nat> {
    Seq::new(entries.len(), |i: int| entries[i].volume@)
}

/// The sum of the volumes of all entries.
pub open spec fn entries_total(entries: Seq<SenderEntry>) -> nat {
    seq_sum(entry_volumes(entries))
}

/// The sum of the volumes of the first `count` entries.
pub open spec fn prefix_total(entries: Seq<SenderEntry>, count: int) -> nat {
    seq_sum(entry_volumes(entries).take(count))
}

/// Whether some entry is for `sender`.
pub open spec fn entries_hold(entries: Seq<SenderEntry>, sender: Seq<u8>) -> bool {
    exists|i: int| 0 <= i < entries.len() && (#[trigger] entries[i]).address@ == sender
}

/// The rank order: the larger volume first, and of two equal volumes the
/// address that is the smaller number.
pub open spec fn ranks_before(
    volume_a: nat,
    sender_a: Seq<u8>,
    volume_b: nat,
    sender_b: Seq<u8>,
) -> bool {
    volume_a > volume_b || (volume_a == volume_b && be_value(sender_a) < be_value(sender_b))
}

/// Whether entry `a` comes before entry `b` in rank order.
pub open spec fn entry_before(a: SenderEntry, b: SenderEntry) -> bool {
    ranks_before(a.volume@, a.address@, b.volume@, b.address@)
}

/// Whether `accumulated` is strictly less than 90% of `total`.
pub open spec fn below_cut(accumulated: nat, total: nat) -> bool {
    10 * accumulated < 9 * total
}

/// `entries` holds one entry for each sender among the events and no other,
/// each with the exact volume the sender sent.
pub open spec fn is_tally(events: Seq<TransferEvent>, entries: Seq<SenderEntry>) -> bool {
    &&& forall|i: int, j: int|
        0 <= i < j < entries.len() ==> (#[trigger] entries[i]).address@ != (
        #[trigger] entries[j]).address@
    &&& forall|i: int|
        0 <= i < entries.len() ==> has_sender(events, (#[trigger] entries[i]).address@)
            && entries[i].volume@ == sender_total(events, entries[i].address@)
    &&& forall|k: int| 0 <= k < events.len() ==> entries_hold(entries, (#[trigger] events[k]).from@)
}

/// Whether the entries stand in strict rank order.
pub open spec fn is_ranked(entries: Seq<SenderEntry>) -> bool {
    forall|i: int, j: int|
        0 <= i < j < entries.len() ==> entry_before(#[trigger] entries[i], #[trigger] entries[j])
}

/// `top`, `others` and `total` are the sender ranking of `events`:
/// - `total` is the sum of all event values;
/// - `top` holds senders of the events with their exact volumes, in strict
///   rank order, and every sender it lacks ranks after all of them;
/// - each entry of `top` was taken while the volume of the entries before it
///   was below 90% of the total, and if a sender is left out, the volume of
///   `top` has reached 90%;
/// - `others` is the volume of all senders that `top` lacks.
pub open spec fn is_sender_ranking(
    events: Seq<TransferEvent>,
    top: Seq<SenderEntry>,
    others: nat,
    total: nat,
) -> bool {
    &&& total == total_value(events)
    &&& is_ranked(top)
    &&& forall|i: int|
        0 <= i < top.len() ==> has_sender(events, (#[trigger] top[i]).address@) && top[i].volume@
            == sender_total(events, top[i].address@)
    &&& forall|k: int, i: int|
        0 <= k < events.len() && 0 <= i < top.len() && !entries_hold(
            top,
            (#[trigger] events[k]).from@,
        ) ==> ranks_before(
            (#[trigger] top[i]).volume@,
            top[i].address@,
            sender_total(events, events[k].from@),
            events[k].from@,
        )
    &&& forall|i: int| 0 <= i < top.len() ==> below_cut(#[trigger] prefix_total(top, i), total)
    &&& (exists|k: int| 0 <= k < events.len() && !entries_hold(top, (#[trigger] events[k]).from@))
        ==> !below_cut(entries_total(top), total)
    &&& entries_total(top) + others == total
}

/// `data` shows `entry` as one slice of a total of `total`.
pub open spec fn renders_entry(data: SenderData, entry: SenderEntry, total: nat) -> bool {
    &&& data.address@ == address_text(entry.address@)
    &&& data.volume@ == amount_text(entry.volume@, USDT_DECIMALS as nat)
    &&& data.percentage.part@ == entry.volume@
    &&& data.percentage.whole@ == total
}

/// `data` shows the remainder `others` of a total of `total`.
pub open spec fn renders_others(data: SenderData, others: nat, total: nat) -> bool {
    &&& data.address@ == "Others"@
    &&& data.volume@ == amount_text(others, USDT_DECIMALS as nat)
    &&& data.percentage.part@ == others
    &&& data.percentage.whole@ == total
}

/// `data` shows the ranking: one slice for each entry of `top`, in order, and
/// after them one for `others` if and only if `others` is not zero.
pub open spec fn renders_ranking(
    data: Seq<SenderData>,
    top: Seq<SenderEntry>,
    others: nat,
    total: nat,
) -> bool {
    &&& data.len() == top.len() + (if others > 0 {
        1int
    } else {
        0int
    })
    &&& forall|i: int| 0 <= i < top.len() ==> renders_entry(#[trigger] data[i], top[i], total)
    &&& others > 0 ==> renders_others(data[top.len() as int], others, total)
}

/// `data` is the rendered sender breakdown of `events`.
pub open spec fn is_sender_breakdown(events: Seq<TransferEvent>, data: Seq<SenderData>) -> bool {
    exists|top: Seq<SenderEntry>, others: nat|
        is_sender_ranking(events, top, others, total_value(events)) && #[trigger] renders_ranking(
            data,
            top,
            others,
            total_value(events),
        )
}

/// The exact parts of the slices, in order.
pub open spec fn share_parts(data: Seq<SenderData>) -> Seq<nat> {
    Seq::new(data.len(), |i: int| data[i].percentage.part@)
}

/// Whether every sender of the events has an entry.
pub open spec fn senders_all_held(events: Seq<TransferEvent>, entries: Seq<SenderEntry>) -> bool {
    forall|k: int| 0 <= k < events.len() ==> entries_hold(entries, (#[trigger] events[k]).from@)
}

/// Whether every event moves a positive amount.
pub open spec fn values_all_positive(events: Seq<TransferEvent>) -> bool {
    forall|k: int| 0 <= k < events.len() ==> (#[trigger] events[k]).value@ > 0
}

/// Whether `entry` is among the first `count` of `entries`.
spec fn among(entries: Seq<SenderEntry>, count: int, entry: SenderEntry) -> bool {
    exists|m: int| 0 <= m < count && m < entries.len() && #[trigger] entries[m] == entry
}

/// Whether the entries are for pairwise different senders.
pub open spec fn distinct_senders(entries: Seq<SenderEntry>) -> bool {
    forall|i: int, j: int|
        0 <= i < j < entries.len() ==> (#[trigger] entries[i]).address@ != (
        #[trigger] entries[j]).address@
}

/// Whether `ranked` holds exactly the first `count` of `entries`, in strict
/// rank order.
spec fn ranks_prefix(
    entries: Seq<SenderEntry>,
    count: int,
    ranked: Seq<SenderEntry>,
) -> bool {
    &&& is_ranked(ranked)
    &&& ranked.len() == count
    &&& forall|i: int| 0 <= i < ranked.len() ==> among(entries, count, #[trigger] ranked[i])
    &&& forall|m: int| 0 <= m < count ==> among(ranked, count, #[trigger] entries[m])
    &&& entries_total(ranked) == prefix_total(entries, count)
}

/// Being below 90% of the total is being below the total less its tenth,
/// rounded down.
pub proof fn lemma_cut(accumulated: nat, total: nat)
    ensures
        below_cut(accumulated, total) <==> accumulated < total - total / 10,
{
}

/// Byte strings of one length that encode the same number are the same.
pub proof fn lemma_be_value_injective(a: Seq<u8>, b: Seq<u8>)
    requires
        a.len() == b.len(),
        be_value(a) == be_value(b),
    ensures
        a == b,
    decreases a.len(),
{
    if a.len() > 0 {
        assert(be_value(a.drop_last()) == be_value(b.drop_last()) && a.last() == b.last()) by {
            let x = be_value(a.drop_last());
            let y = be_value(b.drop_last());
            if x < y {
                assert(x + 1 <= y);
            } else if y < x {
                assert(y + 1 <= x);
            }
        }
        lemma_be_value_injective(a.drop_last(), b.drop_last());
        assert(a =~= a.drop_last().push(a.last()));
        assert(b =~= b.drop_last().push(b.last()));
    } else {
        assert(a =~= b);
    }
}

/// Of two entries for different senders one comes before the other.
pub proof fn lemma_rank_total(a: SenderEntry, b: SenderEntry)
    requires
        a.address@ != b.address@,
    ensures
        entry_before(a, b) || entry_before(b, a),
{
    if be_value(a.address@) == be_value(b.address@) {
        lemma_be_value_injective(a.address@, b.address@);
    }
}

/// One more event adds its value to its sender's volume and to no other.
pub proof fn lemma_sender_total_push(
    events: Seq<TransferEvent>,
    event: TransferEvent,
    sender: Seq<u8>,
)
    ensures
        sender_total(events.push(event), sender) == sender_total(events, sender) + (if event.from@
            == sender {
            event.value@
        } else {
            0
        }),
{
    let added: nat = if event.from@ == sender {
        event.value@
    } else {
        0
    };
    assert(sender_values(events.push(event), sender) =~= sender_values(events, sender).push(added));
    lemma_sum_push(sender_values(events, sender), added);
}

/// Who sent nothing has volume zero.
pub proof fn lemma_sender_absent(events: Seq<TransferEvent>, sender: Seq<u8>)
    requires
        !has_sender(events, sender),
    ensures
        sender_total(events, sender) == 0,
{
    let values = sender_values(events, sender);
    assert forall|k: int| 0 <= k < values.len() implies values[k] == 0 by {
        let event = events[k];
        assert(event.from@ != sender);
    }
    lemma_sum_zero(values);
}

/// A sender of an event with a positive value has a positive volume.
pub proof fn lemma_sender_positive(events: Seq<TransferEvent>, k: int)
    requires
        0 <= k < events.len(),
        events[k].value@ > 0,
    ensures
        sender_total(events, events[k].from@) > 0,
{
    lemma_sum_bounds_element(sender_values(events, events[k].from@), k);
}

/// A sender of the events is still one after one more event, and so is the
/// sender of that event.
pub proof fn lemma_has_sender_push(
    events: Seq<TransferEvent>,
    event: TransferEvent,
    sender: Seq<u8>,
)
    ensures
        has_sender(events, sender) ==> has_sender(events.push(event), sender),
        has_sender(events.push(event), event.from@),
{
    let longer = events.push(event);
    if has_sender(events, sender) {
        let k = choose|k: int| 0 <= k < events.len() && (#[trigger] events[k]).from@ == sender;
        assert(longer[k] == events[k]);
    }
    assert(longer[events.len() as int] == event);
}

/// Adding an event's value to the entry of its sender keeps the tally exact.
proof fn lemma_tally_update(
    events: Seq<TransferEvent>,
    event: TransferEvent,
    entries: Seq<SenderEntry>,
    slot: int,
    entry: SenderEntry,
)
    requires
        is_tally(events, entries),
        0 <= slot < entries.len(),
        entries[slot].address@ == event.from@,
        entry.address@ == event.from@,
        entry.volume@ == entries[slot].volume@ + event.value@,
    ensures
        is_tally(events.push(event), entries.update(slot, entry)),
        entries_total(entries.update(slot, entry)) == entries_total(entries) + event.value@,
{
    let longer = events.push(event);
    let changed = entries.update(slot, entry);
    assert forall|i: int| 0 <= i < changed.len() implies has_sender(
        longer,
        (#[trigger] changed[i]).address@,
    ) && changed[i].volume@ == sender_total(longer, changed[i].address@) by {
        let sender = entries[i].address@;
        assert(changed[i].address@ == sender);
        lemma_has_sender_push(events, event, sender);
        lemma_sender_total_push(events, event, sender);
        if i != slot {
            assert(entries[i].address@ != entries[slot].address@);
        }
    }
    assert forall|k: int| 0 <= k < longer.len() implies entries_hold(
        changed,
        (#[trigger] longer[k]).from@,
    ) by {
        if k < events.len() {
            let sender = events[k].from@;
            assert(entries_hold(entries, sender));
            let i = choose|i: int| 0 <= i < entries.len() && (#[trigger] entries[i]).address@ == sender;
            assert(changed[i].address@ == sender);
        } else {
            assert(changed[slot].address@ == event.from@);
        }
    }
    assert forall|i: int, j: int| 0 <= i < j < changed.len() implies (#[trigger] changed[i]).address@
        != (#[trigger] changed[j]).address@ by {
        assert(changed[i].address@ == entries[i].address@);
        assert(changed[j].address@ == entries[j].address@);
    }
    assert(entry_volumes(changed) =~= entry_volumes(entries).update(slot, entry.volume@));
    lemma_sum_update(entry_volumes(entries), slot, entry.volume@);
}

/// Appending an entry for an event whose sender the tally lacks keeps the
/// tally exact.
proof fn lemma_tally_push(
    events: Seq<TransferEvent>,
    event: TransferEvent,
    entries: Seq<SenderEntry>,
    entry: SenderEntry,
)
    requires
        is_tally(events, entries),
        forall|i: int| 0 <= i < entries.len() ==> (#[trigger] entries[i]).address@ != event.from@,
        entry.address@ == event.from@,
        entry.volume@ == event.value@,
    ensures
        is_tally(events.push(event), entries.push(entry)),
        entries_total(entries.push(entry)) == entries_total(entries) + event.value@,
{
    let longer = events.push(event);
    let grown = entries.push(entry);
    let sender = event.from@;
    assert(!has_sender(events, sender)) by {
        if has_sender(events, sender) {
            let k = choose|k: int| 0 <= k < events.len() && (#[trigger] events[k]).from@ == sender;
            assert(entries_hold(entries, events[k].from@));
            let i = choose|i: int| 0 <= i < entries.len() && (#[trigger] entries[i]).address@ == sender;
            assert(false);
        }
    }
    lemma_sender_absent(events, sender);
    assert forall|i: int| 0 <= i < grown.len() implies has_sender(
        longer,
        (#[trigger] grown[i]).address@,
    ) && grown[i].volume@ == sender_total(longer, grown[i].address@) by {
        let here = grown[i].address@;
        lemma_has_sender_push(events, event, here);
        lemma_sender_total_push(events, event, here);
        if i < entries.len() {
            assert(grown[i] == entries[i]);
        }
    }
    assert forall|k: int| 0 <= k < longer.len() implies entries_hold(
        grown,
        (#[trigger] longer[k]).from@,
    ) by {
        if k < events.len() {
            let wanted = events[k].from@;
            assert(entries_hold(entries, wanted));
            let i = choose|i: int| 0 <= i < entries.len() && (#[trigger] entries[i]).address@ == wanted;
            assert(grown[i].address@ == wanted);
        } else {
            assert(grown[entries.len() as int].address@ == event.from@);
        }
    }
    assert forall|i: int, j: int| 0 <= i < j < grown.len() implies (#[trigger] grown[i]).address@
        != (#[trigger] grown[j]).address@ by {
        assert(grown[i] == entries[i]);
        if j < entries.len() {
            assert(grown[j] == entries[j]);
        }
    }
    assert(entry_volumes(grown) =~= entry_volumes(entries).push(entry.volume@));
    lemma_sum_push(entry_volumes(entries), entry.volume@);
}

/// The first entry for `sender`, or the number of entries if there is none.
fn find_sender(entries: &Vec<SenderEntry>, sender: &Address) -> (slot: usize)
    ensures
        slot <= entries.len(),
        forall|i: int| 0 <= i < slot ==> (#[trigger] entries[i]).address@ != sender@,
        slot < entries.len() ==> entries[slot as int].address@ == sender@,
{
    let mut slot: usize = 0;
    while slot < entries.len()
        invariant
            slot <= entries.len(),
            forall|i: int| 0 <= i < slot ==> (#[trigger] entries[i]).address@ != sender@,
        decreases entries.len() - slot,
    {
        if entries[slot].address.equals(sender) {
            return slot;
        }
        slot += 1;
    }
    slot
}

/// One entry for each sender, in order of first appearance, with the exact
/// volume sent.
fn tally_senders(events: &[TransferEvent]) -> (entries: Vec<SenderEntry>)
    requires
        total_value(events@) < amount_limit(),
    ensures
        is_tally(events@, entries@),
        entries_total(entries@) == total_value(events@),
{
    let mut entries: Vec<SenderEntry> = Vec::new();
    let mut done: usize = 0;
    proof {
        assert(events@.take(0) =~= Seq::<TransferEvent>::empty());
        assert(entry_volumes(entries@) =~= Seq::<nat>::empty());
        assert(event_values(events@.take(0)) =~= Seq::<nat>::empty());
    }
    while done < events.len()
        invariant
            done <= events.len(),
            total_value(events@) < amount_limit(),
            is_tally(events@.take(done as int), entries@),
            entries_total(entries@) == total_value(events@.take(done as int)),
        decreases events.len() - done,
    {
        let event = events[done];
        let slot = find_sender(&entries, &event.from);
        let ghost seen = events@.take(done as int);
        proof {
            assert(events@.take(done + 1) =~= seen.push(event));
            lemma_total_push(seen, event);
            lemma_total_prefix(events@, done + 1);
        }
        if slot < entries.len() {
            proof {
                lemma_sum_bounds_element(entry_volumes(entries@), slot as int);
            }
            let volume = match entries[slot].volume.checked_add(&event.value) {
                Some(sum) => sum,
                None => Amount::zero(),
            };
            let entry = SenderEntry { address: event.from, volume };
            proof {
                lemma_tally_update(seen, event, entries@, slot as int, entry);
            }
            entries.set(slot, entry);
        } else {
            let entry = SenderEntry { address: event.from, volume: event.value };
            proof {
                lemma_tally_push(seen, event, entries@, entry);
            }
            entries.push(entry);
        }
        done += 1;
    }
    proof {
        assert(events@.take(done as int) =~= events@);
    }
    entries
}

/// Whether `a` comes before `b` in rank order.
fn comes_before(a: &SenderEntry, b: &SenderEntry) -> (before: bool)
    ensures
        before == entry_before(*a, *b),
{
    if b.volume.less_than(&a.volume) {
        true
    } else if a.volume.equals(&b.volume) {
        a.address.to_number().less_than(&b.address.to_number())
    } else {
        false
    }
}

/// Inserting an entry before the first that it outranks keeps strict rank
/// order, if it is for another sender than all entries there.
proof fn lemma_insert_keeps_rank(before: Seq<SenderEntry>, slot: int, entry: SenderEntry)
    requires
        is_ranked(before),
        0 <= slot <= before.len(),
        forall|i: int| 0 <= i < before.len() ==> (#[trigger] before[i]).address@ != entry.address@,
        forall|i: int| 0 <= i < slot ==> !entry_before(entry, #[trigger] before[i]),
        slot < before.len() ==> entry_before(entry, before[slot]),
    ensures
        is_ranked(before.insert(slot, entry)),
{
    let after = before.insert(slot, entry);
    before.insert_ensures(slot, entry);
    assert forall|i: int, j: int| 0 <= i < j < after.len() implies entry_before(
        #[trigger] after[i],
        #[trigger] after[j],
    ) by {
        if i < slot {
            assert(after[i] == before[i]);
        } else if i > slot {
            assert(after[i] == before[i - 1]);
        }
        if j < slot {
            assert(after[j] == before[j]);
        } else if j > slot {
            assert(after[j] == before[j - 1]);
        }
        if j == slot {
            lemma_rank_total(before[i], entry);
        } else if i == slot {
            if j > slot + 1 {
                assert(entry_before(before[slot], before[j - 1]));
            }
        } else {
            if i < slot {
                if j < slot {
                    assert(entry_before(before[i], before[j]));
                } else {
                    assert(entry_before(before[i], before[j - 1]));
                }
            } else {
                assert(entry_before(before[i - 1], before[j - 1]));
            }
        }
    }
}

/// Inserting an entry adds its volume to the total.
proof fn lemma_insert_adds_volume(before: Seq<SenderEntry>, slot: int, entry: SenderEntry)
    requires
        0 <= slot <= before.len(),
    ensures
        entries_total(before.insert(slot, entry)) == entries_total(before) + entry.volume@,
{
    let after = before.insert(slot, entry);
    before.insert_ensures(slot, entry);
    entry_volumes(before).insert_ensures(slot, entry.volume@);
    assert forall|i: int| 0 <= i < after.len() implies entry_volumes(after)[i] == entry_volumes(
        before,
    ).insert(slot, entry.volume@)[i] by {
        if i < slot {
            assert(after[i] == before[i]);
        } else if i > slot {
            assert(after[i] == before[i - 1]);
            assert(entry_volumes(before).insert(slot, entry.volume@)[(i - 1) + 1] == entry_volumes(
                before,
            )[i - 1]);
        }
    }
    assert(entry_volumes(after) =~= entry_volumes(before).insert(slot, entry.volume@));
    lemma_sum_insert(entry_volumes(before), slot, entry.volume@);
}

/// Inserting the next entry into the ranked ones keeps them the same entries
/// as the prefix that grew by it.
proof fn lemma_insert_same_entries(
    entries: Seq<SenderEntry>,
    count: int,
    before: Seq<SenderEntry>,
    slot: int,
)
    requires
        0 <= count < entries.len(),
        before.len() == count,
        0 <= slot <= before.len(),
        forall|i: int| 0 <= i < before.len() ==> among(entries, count, #[trigger] before[i]),
        forall|m: int| 0 <= m < count ==> among(before, count, #[trigger] entries[m]),
    ensures
        forall|i: int|
            0 <= i < count + 1 ==> among(
                entries,
                count + 1,
                #[trigger] before.insert(slot, entries[count])[i],
            ),
        forall|m: int|
            0 <= m < count + 1 ==> among(
                before.insert(slot, entries[count]),
                count + 1,
                #[trigger] entries[m],
            ),
{
    let entry = entries[count];
    let after = before.insert(slot, entry);
    before.insert_ensures(slot, entry);
    assert forall|i: int| 0 <= i < count + 1 implies among(entries, count + 1, #[trigger] after[i]) by {
        if i == slot {
            assert(entries[count] == after[i]);
        } else {
            let old_i = if i < slot {
                i
            } else {
                i - 1
            };
            assert(after[i] == before[old_i]);
            assert(among(entries, count, before[old_i]));
            let m = choose|m: int| 0 <= m < count && m < entries.len() && #[trigger] entries[m] == before[old_i];
            assert(entries[m] == after[i]);
        }
    }
    assert forall|m: int| 0 <= m < count + 1 implies among(after, count + 1, #[trigger] entries[m]) by {
        if m == count {
            assert(after[slot] == entries[m]);
        } else {
            assert(among(before, count, entries[m]));
            let i = choose|i: int| 0 <= i < count && i < before.len() && #[trigger] before[i] == entries[m];
            if i < slot {
                assert(after[i] == entries[m]);
            } else {
                assert(after[i + 1] == before[i]);
                assert(after[i + 1] == entries[m]);
            }
        }
    }
}

/// Inserting the next entry before the first that it outranks keeps the
/// ranked entries in strict rank order.
proof fn lemma_rank_insert(
    entries: Seq<SenderEntry>,
    count: int,
    before: Seq<SenderEntry>,
    slot: int,
)
    requires
        0 <= count < entries.len(),
        distinct_senders(entries),
        ranks_prefix(entries, count, before),
        0 <= slot <= before.len(),
        forall|i: int| 0 <= i < slot ==> !entry_before(entries[count], #[trigger] before[i]),
        slot < before.len() ==> entry_before(entries[count], before[slot]),
    ensures
        ranks_prefix(entries, count + 1, before.insert(slot, entries[count])),
{
    let entry = entries[count];
    assert forall|i: int| 0 <= i < before.len() implies (#[trigger] before[i]).address@
        != entry.address@ by {
        assert(among(entries, count, before[i]));
        let m = choose|m: int| 0 <= m < count && m < entries.len() && #[trigger] entries[m] == before[i];
        assert(entries[m].address@ != entries[count].address@);
    }
    lemma_insert_keeps_rank(before, slot, entry);
    lemma_insert_adds_volume(before, slot, entry);
    lemma_insert_same_entries(entries, count, before, slot);
    lemma_sum_take_next(entry_volumes(entries), count);
    before.insert_ensures(slot, entry);
}

/// The same entries in strict rank order.
fn rank_entries(entries: &Vec<SenderEntry>) -> (ranked: Vec<SenderEntry>)
    requires
        distinct_senders(entries@),
    ensures
        ranks_prefix(entries@, entries.len() as int, ranked@),
        entries_total(ranked@) == entries_total(entries@),
{
    let mut ranked: Vec<SenderEntry> = Vec::new();
    let mut done: usize = 0;
    proof {
        assert(entry_volumes(ranked@) =~= entry_volumes(entries@).take(0));
    }
    while done < entries.len()
        invariant
            done <= entries.len(),
            distinct_senders(entries@),
            ranks_prefix(entries@, done as int, ranked@),
        decreases entries.len() - done,
    {
        let entry = entries[done];
        let slot = find_rank(&ranked, &entry);
        proof {
            lemma_rank_insert(entries@, done as int, ranked@, slot as int);
        }
        ranked.insert(slot, entry);
        done += 1;
    }
    proof {
        assert(entry_volumes(entries@).take(done as int) =~= entry_volumes(entries@));
    }
    ranked
}

/// The first place whose entry `entry` outranks, or the number of entries if
/// it outranks none.
fn find_rank(ranked: &Vec<SenderEntry>, entry: &SenderEntry) -> (slot: usize)
    ensures
        slot <= ranked.len(),
        forall|i: int| 0 <= i < slot ==> !entry_before(*entry, #[trigger] ranked[i]),
        slot < ranked.len() ==> entry_before(*entry, ranked[slot as int]),
{
    let mut slot: usize = 0;
    while slot < ranked.len()
        invariant
            slot <= ranked.len(),
            forall|i: int| 0 <= i < slot ==> !entry_before(*entry, #[trigger] ranked[i]),
        decreases ranked.len() - slot,
    {
        if comes_before(entry, &ranked[slot]) {
            return slot;
        }
        slot += 1;
    }
    slot
}

/// Ranked entries that are the same as a tally's are a tally too.
proof fn lemma_ranked_tally(
    events: Seq<TransferEvent>,
    tally: Seq<SenderEntry>,
    ranked: Seq<SenderEntry>,
)
    requires
        is_tally(events, tally),
        ranks_prefix(tally, tally.len() as int, ranked),
    ensures
        is_tally(events, ranked),
{
    let count = tally.len() as int;
    assert forall|i: int, j: int| 0 <= i < j < ranked.len() implies (#[trigger] ranked[i]).address@
        != (#[trigger] ranked[j]).address@ by {
        assert(among(tally, count, ranked[i]));
        assert(among(tally, count, ranked[j]));
        let a = choose|m: int| 0 <= m < count && m < tally.len() && #[trigger] tally[m] == ranked[i];
        let b = choose|m: int| 0 <= m < count && m < tally.len() && #[trigger] tally[m] == ranked[j];
        assert(entry_before(ranked[i], ranked[j]));
        if a < b {
            assert(tally[a].address@ != tally[b].address@);
        } else if b < a {
            assert(tally[b].address@ != tally[a].address@);
        }
    }
    assert forall|i: int| 0 <= i < ranked.len() implies has_sender(
        events,
        (#[trigger] ranked[i]).address@,
    ) && ranked[i].volume@ == sender_total(events, ranked[i].address@) by {
        assert(among(tally, count, ranked[i]));
        let m = choose|m: int| 0 <= m < count && m < tally.len() && #[trigger] tally[m] == ranked[i];
        assert(has_sender(events, tally[m].address@));
    }
    assert forall|k: int| 0 <= k < events.len() implies entries_hold(
        ranked,
        (#[trigger] events[k]).from@,
    ) by {
        let sender = events[k].from@;
        assert(entries_hold(tally, sender));
        let m = choose|m: int| 0 <= m < tally.len() && (#[trigger] tally[m]).address@ == sender;
        assert(among(ranked, count, tally[m]));
        let i = choose|i: int| 0 <= i < count && i < ranked.len() && #[trigger] ranked[i] == tally[m];
        assert(ranked[i].address@ == sender);
    }
}

/// Cutting a ranked tally where the volume first reaches 90% of the total
/// gives the sender ranking.
proof fn lemma_cut_ranking(events: Seq<TransferEvent>, ranked: Seq<SenderEntry>, count: int)
    requires
        is_tally(events, ranked),
        is_ranked(ranked),
        entries_total(ranked) == total_value(events),
        0 <= count <= ranked.len(),
        forall|i: int|
            0 <= i < count ==> below_cut(#[trigger] prefix_total(ranked, i), total_value(events)),
        count < ranked.len() ==> !below_cut(prefix_total(ranked, count), total_value(events)),
    ensures
        prefix_total(ranked, count) <= total_value(events),
        entries_total(ranked.take(count)) == prefix_total(ranked, count),
        is_sender_ranking(
            events,
            ranked.take(count),
            (total_value(events) - prefix_total(ranked, count)) as nat,
            total_value(events),
        ),
{
    let top = ranked.take(count);
    let total = total_value(events);
    lemma_sum_prefix(entry_volumes(ranked), count);
    assert(entry_volumes(top) =~= entry_volumes(ranked).take(count));
    assert forall|i: int| 0 <= i < top.len() implies below_cut(
        #[trigger] prefix_total(top, i),
        total,
    ) by {
        assert(entry_volumes(top).take(i) =~= entry_volumes(ranked).take(i));
        assert(below_cut(prefix_total(ranked, i), total));
    }
    assert forall|i: int| 0 <= i < top.len() implies has_sender(events, (#[trigger] top[i]).address@)
        && top[i].volume@ == sender_total(events, top[i].address@) by {
        assert(top[i] == ranked[i]);
    }
    assert(is_ranked(top)) by {
        assert forall|i: int, j: int| 0 <= i < j < top.len() implies entry_before(
            #[trigger] top[i],
            #[trigger] top[j],
        ) by {
            assert(top[i] == ranked[i] && top[j] == ranked[j]);
        }
    }
    assert forall|k: int| 0 <= k < events.len() && !entries_hold(top, (#[trigger] events[k]).from@)
        implies exists|j: int|
        count <= j < ranked.len() && (#[trigger] ranked[j]).address@ == events[k].from@ by {
        let sender = events[k].from@;
        assert(entries_hold(ranked, sender));
        let j = choose|j: int| 0 <= j < ranked.len() && (#[trigger] ranked[j]).address@ == sender;
        if j < count {
            assert(top[j].address@ == sender);
        }
    }
    assert forall|k: int, i: int|
        0 <= k < events.len() && 0 <= i < top.len() && !entries_hold(
            top,
            (#[trigger] events[k]).from@,
        ) implies ranks_before(
        (#[trigger] top[i]).volume@,
        top[i].address@,
        sender_total(events, events[k].from@),
        events[k].from@,
    ) by {
        let sender = events[k].from@;
        let j = choose|j: int| count <= j < ranked.len() && (#[trigger] ranked[j]).address@ == sender;
        assert(top[i] == ranked[i]);
        assert(entry_before(ranked[i], ranked[j]));
    }
    if exists|k: int| 0 <= k < events.len() && !entries_hold(top, (#[trigger] events[k]).from@) {
        let k = choose|k: int| 0 <= k < events.len() && !entries_hold(top, (#[trigger] events[k]).from@);
        let j = choose|j: int|
            count <= j < ranked.len() && (#[trigger] ranked[j]).address@ == events[k].from@;
        assert(count < ranked.len());
    }
}

/// The sender ranking: senders by falling volume, taken one after another
/// while the volume taken so far is strictly below 90% of the total, so that
/// the sender who crosses the mark is the last one in; what the senders left
/// out sent is summed up in `others`. Senders of equal volume stand in the
/// order of their addresses read as numbers.
///
/// The sum of all event values must fit in 256 bits.
pub fn rank_senders(events: &[TransferEvent]) -> (ranking: SenderRanking)
    requires
        total_value(events@) < amount_limit(),
    ensures
        is_sender_ranking(events@, ranking.top@, ranking.others@, ranking.total@),
{
    let total = match checked_total_volume(events) {
        Some(sum) => sum,
        None => Amount::zero(),
    };
    let tally = tally_senders(events);
    let ranked = rank_entries(&tally);
    proof {
        lemma_ranked_tally(events@, tally@, ranked@);
    }
    let tenth = match total.checked_div_rem(&Amount::from_u64(10)) {
        Some(parts) => parts.0,
        None => Amount::zero(),
    };
    let mark = match total.checked_sub(&tenth) {
        Some(rest) => rest,
        None => Amount::zero(),
    };
    let mut top: Vec<SenderEntry> = Vec::new();
    let mut taken = Amount::zero();
    let mut count: usize = 0;
    let mut below = taken.less_than(&mark);
    proof {
        lemma_cut(0, total@);
        assert(entry_volumes(ranked@).take(0) =~= Seq::<nat>::empty());
        assert(ranked@.take(0) =~= top@);
    }
    while count < ranked.len() && below
        invariant
            count <= ranked.len(),
            total@ == total_value(events@),
            total@ < amount_limit(),
            entries_total(ranked@) == total@,
            mark@ == total@ - total@ / 10,
            top@ == ranked@.take(count as int),
            taken@ == prefix_total(ranked@, count as int),
            below == below_cut(taken@, total@),
            forall|i: int|
                0 <= i < count ==> below_cut(#[trigger] prefix_total(ranked@, i), total@),
        decreases ranked.len() - count,
    {
        proof {
            lemma_sum_take_next(entry_volumes(ranked@), count as int);
            lemma_sum_prefix(entry_volumes(ranked@), count + 1);
            assert(ranked@.take(count + 1) =~= ranked@.take(count as int).push(ranked@[count as int]));
        }
        let entry = ranked[count];
        taken = match taken.checked_add(&entry.volume) {
            Some(sum) => sum,
            None => Amount::zero(),
        };
        top.push(entry);
        count += 1;
        below = taken.less_than(&mark);
        proof {
            lemma_cut(taken@, total@);
        }
    }
    proof {
        lemma_cut_ranking(events@, ranked@, count as int);
    }
    let others = match total.checked_sub(&taken) {
        Some(rest) => rest,
        None => Amount::zero(),
    };
    SenderRanking { top, others, total }
}

/// The sender breakdown: one slice for each leading sender, in rank order,
/// with the address as text and the exact volume with six decimals, and after
/// them one slice named `Others` for all senders left out, if they sent
/// anything. Each slice carries its exact share of the total.
///
/// The sum of all event values must fit in 256 bits.
pub fn calculate_top_senders(events: &[TransferEvent]) -> (data: Vec<SenderData>)
    requires
        total_value(events@) < amount_limit(),
    ensures
        is_sender_breakdown(events@, data@),
{
    let ranking = rank_senders(events);
    let mut data: Vec<SenderData> = Vec::new();
    let mut done: usize = 0;
    while done < ranking.top.len()
        invariant
            done <= ranking.top.len(),
            data.len() == done,
            forall|i: int|
                0 <= i < done ==> renders_entry(#[trigger] data[i], ranking.top[i], ranking.total@),
        decreases ranking.top.len() - done,
    {
        let entry = ranking.top[done];
        data.push(
            SenderData {
                address: entry.address.to_text(),
                volume: format_usdt_amount(&entry.volume),
                percentage: Share { part: entry.volume, whole: ranking.total },
            },
        );
        done += 1;
    }
    if !ranking.others.is_zero() {
        data.push(
            SenderData {
                address: String::from_str("Others"),
                volume: format_usdt_amount(&ranking.others),
                percentage: Share { part: ranking.others, whole: ranking.total },
            },
        );
    }
    proof {
        assert(renders_ranking(data@, ranking.top@, ranking.others@, total_value(events@)));
    }
    data
}

/// Entries for pairwise different senders, each with the sender's exact
/// volume, hold no more than the total of the events together, and exactly
/// the total where every sender has an entry.
pub proof fn lemma_entries_total(events: Seq<TransferEvent>, entries: Seq<SenderEntry>)
    requires
        distinct_senders(entries),
        forall|i: int|
            0 <= i < entries.len() ==> (#[trigger] entries[i]).volume@ == sender_total(
                events,
                entries[i].address@,
            ),
    ensures
        entries_total(entries) <= total_value(events),
        senders_all_held(events, entries) ==> entries_total(entries) == total_value(events),
{
    let pairs = Seq::new(events.len(), |k: int| (events[k].from@, events[k].value@));
    let keys = Seq::new(entries.len(), |i: int| entries[i].address@);
    assert(distinct_keys(keys)) by {
        assert forall|i: int, j: int| 0 <= i < j < keys.len() implies keys[i] != keys[j] by {
            assert(entries[i].address@ != entries[j].address@);
        }
    }
    lemma_keyed_partition(pairs, keys);
    assert(pair_values(pairs) =~= event_values(events));
    assert(totals_of(pairs, keys) =~= entry_volumes(entries)) by {
        assert forall|i: int| 0 <= i < entries.len() implies totals_of(pairs, keys)[i]
            == entry_volumes(entries)[i] by {
            assert(keyed_values(pairs, keys[i]) =~= sender_values(events, entries[i].address@));
        }
    }
    if senders_all_held(events, entries) {
        assert forall|k: int| 0 <= k < pairs.len() implies has_key(keys, (#[trigger] pairs[k]).0) by {
            let sender = events[k].from@;
            assert(entries_hold(entries, sender));
            let j = choose|j: int| 0 <= j < entries.len() && (#[trigger] entries[j]).address@ == sender;
            assert(keys[j] == pairs[k].0);
        }
    }
}

/// Entries in strict rank order that hold each sender's exact volume are for
/// pairwise different senders, and their volumes never rise.
pub proof fn lemma_ranked_distinct(events: Seq<TransferEvent>, entries: Seq<SenderEntry>)
    requires
        is_ranked(entries),
        forall|i: int|
            0 <= i < entries.len() ==> (#[trigger] entries[i]).volume@ == sender_total(
                events,
                entries[i].address@,
            ),
    ensures
        distinct_senders(entries),
        forall|i: int, j: int|
            0 <= i < j < entries.len() ==> (#[trigger] entries[i]).volume@ >= (
            #[trigger] entries[j]).volume@,
{
    assert forall|i: int, j: int| 0 <= i < j < entries.len() implies (#[trigger] entries[i]).address@
        != (#[trigger] entries[j]).address@ && entries[i].volume@ >= entries[j].volume@ by {
        assert(entry_before(entries[i], entries[j]));
    }
}

/// The leading senders stand in falling order of volume, and in strictly
/// falling order where no two of them sent the same volume.
pub proof fn lemma_top_descending(
    events: Seq<TransferEvent>,
    top: Seq<SenderEntry>,
    others: nat,
    total: nat,
)
    requires
        is_sender_ranking(events, top, others, total),
    ensures
        forall|i: int, j: int|
            0 <= i < j < top.len() ==> (#[trigger] top[i]).volume@ >= (#[trigger] top[j]).volume@,
        (forall|i: int, j: int|
            0 <= i < j < top.len() ==> (#[trigger] top[i]).volume@ != (#[trigger] top[j]).volume@)
            ==> (forall|i: int, j: int|
            0 <= i < j < top.len() ==> (#[trigger] top[i]).volume@ > (#[trigger] top[j]).volume@),
{
    lemma_ranked_distinct(events, top);
}

/// Nothing is left for the others where every sender is among the leading
/// ones; and where every event moves a positive amount, nothing is left for
/// the others only then.
pub proof fn lemma_others_left_out(
    events: Seq<TransferEvent>,
    top: Seq<SenderEntry>,
    others: nat,
    total: nat,
)
    requires
        is_sender_ranking(events, top, others, total),
    ensures
        senders_all_held(events, top) ==> others == 0,
        values_all_positive(events) ==> (others == 0 <==> senders_all_held(events, top)),
{
    lemma_ranked_distinct(events, top);
    lemma_entries_total(events, top);
    if values_all_positive(events) && others == 0 && !senders_all_held(events, top) {
        let k = choose|k: int| 0 <= k < events.len() && !entries_hold(top, (#[trigger] events[k]).from@);
        let sender = events[k].from@;
        lemma_sender_positive(events, k);
        let pairs = Seq::new(events.len(), |k: int| (events[k].from@, events[k].value@));
        let keys = Seq::new(top.len(), |i: int| top[i].address@).push(sender);
        assert(distinct_keys(keys)) by {
            assert forall|i: int, j: int| 0 <= i < j < keys.len() implies keys[i] != keys[j] by {
                if j < top.len() {
                    assert(top[i].address@ != top[j].address@);
                } else {
                    if keys[i] == sender {
                        assert(top[i].address@ == sender);
                        assert(entries_hold(top, sender));
                    }
                }
            }
        }
        lemma_keyed_partition(pairs, keys);
        assert(pair_values(pairs) =~= event_values(events));
        assert(totals_of(pairs, keys) =~= entry_volumes(top).push(sender_total(events, sender)))
            by {
            assert forall|i: int| 0 <= i < keys.len() implies totals_of(pairs, keys)[i]
                == entry_volumes(top).push(sender_total(events, sender))[i] by {
                assert(keyed_values(pairs, keys[i]) =~= sender_values(events, keys[i]));
            }
        }
        lemma_sum_push(entry_volumes(top), sender_total(events, sender));
    }
}

/// Where the events move nothing in total, the ranking is empty.
pub proof fn lemma_empty_ranking(
    events: Seq<TransferEvent>,
    top: Seq<SenderEntry>,
    others: nat,
    total: nat,
)
    requires
        is_sender_ranking(events, top, others, total),
        total == 0,
    ensures
        top.len() == 0,
        others == 0,
{
    if top.len() > 0 {
        assert(below_cut(prefix_total(top, 0), total));
    }
}

/// The exact parts of the slices of a sender breakdown sum to the total of
/// the events, each slice is a share of that total, and there is no slice
/// where the total is zero.
pub proof fn lemma_breakdown_shares(events: Seq<TransferEvent>, data: Seq<SenderData>)
    requires
        is_sender_breakdown(events, data),
    ensures
        seq_sum(share_parts(data)) == total_value(events),
        forall|i: int|
            0 <= i < data.len() ==> (#[trigger] data[i]).percentage.whole@ == total_value(events),
        total_value(events) == 0 ==> data.len() == 0,
{
    let total = total_value(events);
    let (top, others) = choose|top: Seq<SenderEntry>, others: nat|
        is_sender_ranking(events, top, others, total) && #[trigger] renders_ranking(
            data,
            top,
            others,
            total,
        );
    if others > 0 {
        assert(share_parts(data) =~= entry_volumes(top).push(others));
        lemma_sum_push(entry_volumes(top), others);
    } else {
        assert(share_parts(data) =~= entry_volumes(top));
    }
    if total == 0 {
        lemma_empty_ranking(events, top, others, total);
    }
}

/// What a sender sent is the same in whatever order the events come.
pub proof fn lemma_sender_any_order(
    first: Seq<TransferEvent>,
    second: Seq<TransferEvent>,
    sender: Seq<u8>,
)
    requires
        same_events(first, second),
    ensures
        sender_total(first, sender) == sender_total(second, sender),
        has_sender(first, sender) == has_sender(second, sender),
{
    let sent = |event: TransferEvent|
        if event.from@ == sender {
            event.value@
        } else {
            0nat
        };
    lemma_weights_any_order(first, second, sent);
    assert(first.map_values(sent) =~= sender_values(first, sender));
    assert(second.map_values(sent) =~= sender_values(second, sender));
    if has_sender(first, sender) {
        let k = choose|k: int| 0 <= k < first.len() && (#[trigger] first[k]).from@ == sender;
        let at = lemma_event_found(first, second, k);
        assert(second[at].from@ == sender);
    }
    if has_sender(second, sender) {
        let k = choose|k: int| 0 <= k < second.len() && (#[trigger] second[k]).from@ == sender;
        let at = lemma_event_found(second, first, k);
        assert(first[at].from@ == sender);
    }
}

/// The sender ranking does not depend on the order of the events.
pub proof fn lemma_ranking_any_order(
    first: Seq<TransferEvent>,
    second: Seq<TransferEvent>,
    top: Seq<SenderEntry>,
    others: nat,
    total: nat,
)
    requires
        same_events(first, second),
        is_sender_ranking(first, top, others, total),
    ensures
        is_sender_ranking(second, top, others, total),
{
    lemma_total_any_order(first, second);
    assert forall|i: int| 0 <= i < top.len() implies has_sender(
        second,
        (#[trigger] top[i]).address@,
    ) && top[i].volume@ == sender_total(second, top[i].address@) by {
        lemma_sender_any_order(first, second, top[i].address@);
    }
    assert forall|k: int, i: int|
        0 <= k < second.len() && 0 <= i < top.len() && !entries_hold(
            top,
            (#[trigger] second[k]).from@,
        ) implies ranks_before(
        (#[trigger] top[i]).volume@,
        top[i].address@,
        sender_total(second, second[k].from@),
        second[k].from@,
    ) by {
        let at = lemma_event_found(second, first, k);
        lemma_sender_any_order(first, second, second[k].from@);
        assert(!entries_hold(top, first[at].from@));
    }
    if exists|k: int| 0 <= k < second.len() && !entries_hold(top, (#[trigger] second[k]).from@) {
        let k = choose|k: int|
            0 <= k < second.len() && !entries_hold(top, (#[trigger] second[k]).from@);
        let at = lemma_event_found(second, first, k);
        assert(!entries_hold(top, first[at].from@));
    }
}

/// Whether the two rankings hold the same senders with the same volumes at
/// all places before `place`.
spec fn agree_below(first: Seq<SenderEntry>, second: Seq<SenderEntry>, place: int) -> bool {
    &&& 0 <= place <= first.len()
    &&& place <= second.len()
    &&& forall|i: int|
        0 <= i < place ==> (#[trigger] first[i]).address@ == second[i].address@ && first[i].volume@
            == second[i].volume@
}

/// Where one ranking goes on after the places at which two rankings agree,
/// the other goes on as well.
proof fn lemma_agree_reaches(
    events: Seq<TransferEvent>,
    first: Seq<SenderEntry>,
    first_others: nat,
    second: Seq<SenderEntry>,
    second_others: nat,
    total: nat,
    place: int,
)
    requires
        is_sender_ranking(events, first, first_others, total),
        is_sender_ranking(events, second, second_others, total),
        agree_below(first, second, place),
        place < first.len(),
    ensures
        place < second.len(),
{
    if second.len() == place {
        lemma_ranked_distinct(events, first);
        assert(entry_volumes(first).take(place) =~= entry_volumes(second).take(place));
        assert(entry_volumes(second).take(place) =~= entry_volumes(second));
        assert(below_cut(prefix_total(first, place), total));
        let sender = first[place].address@;
        assert(has_sender(events, sender));
        let k = choose|k: int| 0 <= k < events.len() && (#[trigger] events[k]).from@ == sender;
        if entries_hold(second, sender) {
            let j = choose|j: int|
                0 <= j < second.len() && (#[trigger] second[j]).address@ == sender;
            assert(first[j].address@ == second[j].address@);
            assert(first[j].address@ != first[place].address@);
        }
        assert(!entries_hold(second, events[k].from@));
    }
}

/// At the first place after those at which two rankings agree, the second
/// holds the sender of the first or an entry that outranks the first's.
proof fn lemma_agree_next(
    events: Seq<TransferEvent>,
    first: Seq<SenderEntry>,
    first_others: nat,
    second: Seq<SenderEntry>,
    second_others: nat,
    total: nat,
    place: int,
)
    requires
        is_sender_ranking(events, first, first_others, total),
        is_sender_ranking(events, second, second_others, total),
        agree_below(first, second, place),
        place < first.len(),
        place < second.len(),
    ensures
        first[place].address@ == second[place].address@ || entry_before(
            second[place],
            first[place],
        ),
{
    let mine = first[place];
    let sender = mine.address@;
    assert(has_sender(events, sender) && mine.volume@ == sender_total(events, sender));
    let k = choose|k: int| 0 <= k < events.len() && (#[trigger] events[k]).from@ == sender;
    if entries_hold(second, sender) {
        let j = choose|j: int| 0 <= j < second.len() && (#[trigger] second[j]).address@ == sender;
        let theirs = second[j];
        assert(theirs.volume@ == sender_total(events, theirs.address@));
        if j < place {
            assert(first[j].address@ == second[j].address@);
            assert(first[j].address@ != first[place].address@) by {
                lemma_ranked_distinct(events, first);
            }
        } else if j > place {
            assert(is_ranked(second));
            assert(entry_before(second[place], second[j]));
        }
    } else {
        let other = second[place];
        assert(!entries_hold(second, events[k].from@));
        assert(ranks_before(
            other.volume@,
            other.address@,
            sender_total(events, events[k].from@),
            events[k].from@,
        ));
    }
}

/// Two sender rankings of the same events agree up to any place of the first.
proof fn lemma_rankings_agree(
    events: Seq<TransferEvent>,
    first: Seq<SenderEntry>,
    first_others: nat,
    second: Seq<SenderEntry>,
    second_others: nat,
    total: nat,
    place: int,
)
    requires
        is_sender_ranking(events, first, first_others, total),
        is_sender_ranking(events, second, second_others, total),
        0 <= place < first.len(),
    ensures
        agree_below(first, second, place + 1),
    decreases place,
{
    if place > 0 {
        lemma_rankings_agree(
            events,
            first,
            first_others,
            second,
            second_others,
            total,
            place - 1,
        );
    }
    lemma_agree_reaches(events, first, first_others, second, second_others, total, place);
    assert(agree_below(second, first, place));
    lemma_agree_next(events, first, first_others, second, second_others, total, place);
    lemma_agree_next(events, second, second_others, first, first_others, total, place);
}

/// Events have one sender ranking only.
pub proof fn lemma_ranking_unique(
    events: Seq<TransferEvent>,
    first: Seq<SenderEntry>,
    first_others: nat,
    second: Seq<SenderEntry>,
    second_others: nat,
    total: nat,
)
    requires
        is_sender_ranking(events, first, first_others, total),
        is_sender_ranking(events, second, second_others, total),
    ensures
        first.len() == second.len(),
        forall|i: int|
            0 <= i < first.len() ==> (#[trigger] first[i]).address@ == second[i].address@
                && first[i].volume@ == second[i].volume@,
        first_others == second_others,
{
    if first.len() > 0 {
        lemma_rankings_agree(
            events,
            first,
            first_others,
            second,
            second_others,
            total,
            first.len() - 1,
        );
    }
    if second.len() > 0 {
        lemma_rankings_agree(
            events,
            second,
            second_others,
            first,
            first_others,
            total,
            second.len() - 1,
        );
    }
    assert(entry_volumes(first) =~= entry_volumes(second));
}

} // verus!
