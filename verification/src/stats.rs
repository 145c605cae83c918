//! Both charts and the total of one set of events.

use crate::amount::{amount_limit, Amount};
use crate::codec::{amount_text, format_usdt_amount, USDT_DECIMALS};
use crate::senders::{calculate_top_senders, is_sender_breakdown};
use crate::totals::{checked_total_volume, total_value};
use crate::types::{TransferEvent, TransferStats};
use crate::volume::{aggregate_volume_by_time, is_volume_chart};
use vstd::prelude::*;

verus! {

/// Whether `stats` is what `events` amount to: the volume chart, the sender
/// breakdown and the total as a numeral with six decimals.
pub open spec fn is_transfer_stats(events: Seq<TransferEvent>, stats: TransferStats) -> bool {
    &&& is_volume_chart(events, stats.volume_chart@)
    &&& is_sender_breakdown(events, stats.top_senders@)
    &&& stats.total_volume@ == amount_text(total_value(events), USDT_DECIMALS as nat)
}

/// Reduces the events of one time window to the statistics shown for it.
///
/// The sum of all event values must fit in 256 bits; `can_process` tells.
pub fn process_transfer_events(events: Vec<TransferEvent>) -> (stats: TransferStats)
    requires
        total_value(events@) < amount_limit(),
    ensures
        is_transfer_stats(events@, stats),
{
    let volume_chart = aggregate_volume_by_time(events.as_slice());
    let top_senders = calculate_top_senders(events.as_slice());
    let total = match checked_total_volume(events.as_slice()) {
        Some(sum) => sum,
        None => Amount::zero(),
    };
    TransferStats { volume_chart, top_senders, total_volume: format_usdt_amount(&total) }
}

/// Whether the events can be processed: whether the sum of their values fits
/// in 256 bits.
pub fn can_process(events: &Vec<TransferEvent>) -> (fits: bool)
    ensures
        fits == (total_value(events@) < amount_limit()),
{
    checked_total_volume(events.as_slice()).is_some()
}

} // verus!
