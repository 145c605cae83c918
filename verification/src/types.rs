//! The records that flow through the pipeline.

use crate::address::Address;
use crate::amount::Amount;
use vstd::prelude::*;

verus! {

/// One on-chain transfer of the tracked token.
#[derive(Clone, Copy, Debug, PartialEq, Eq)]
pub struct TransferEvent {
    /// Who sent the tokens.
    pub from: Address,
    /// Who received them.
    pub to: Address,
    /// How many, in the token's smallest unit.
    pub value: Amount,
    /// The block that recorded the transfer.
    pub block_number: u64,
    /// Unix seconds assigned to that block.
    pub timestamp: u64,
}

/// The exact volume of one time bucket.
#[derive(Clone, Copy, Debug, PartialEq, Eq)]
pub struct VolumeBucket {
    /// Unix seconds at which the bucket starts.
    pub bucket_start: u64,
    /// Sum of the values of the events in the bucket.
    pub volume: Amount,
}

/// The exact volume that one account sent.
#[derive(Clone, Copy, Debug, PartialEq, Eq)]
pub struct SenderEntry {
    pub address: Address,
    pub volume: Amount,
}

/// The leading senders, in rank order, and what all others sent together.
#[derive(Clone, Debug, PartialEq, Eq)]
pub struct SenderRanking {
    pub top: Vec<SenderEntry>,
    pub others: Amount,
    pub total: Amount,
}

/// One point of the volume chart, ready for display.
#[derive(Clone, Debug, PartialEq, Eq)]
pub struct VolumeData {
    /// Start of the 30-minute period.
    pub timestamp: u64,
    /// Volume of the period as a decimal numeral.
    pub volume: String,
}

/// A share of the total, kept exact: `part` out of `whole`.
#[derive(Clone, Copy, Debug, PartialEq, Eq)]
pub struct Share {
    pub part: Amount,
    pub whole: Amount,
}

/// One slice of the sender breakdown, ready for display.
#[derive(Clone, Debug, PartialEq, Eq)]
pub struct SenderData {
    /// The sender's address as text, or `Others`.
    pub address: String,
    /// Volume sent as a decimal numeral.
    pub volume: String,
    /// The slice's share of the total volume.
    pub percentage: Share,
}

/// Both charts and the total of one time window.
#[derive(Clone, Debug, PartialEq, Eq)]
pub struct TransferStats {
    pub volume_chart: Vec<VolumeData>,
    pub top_senders: Vec<SenderData>,
    pub total_volume: String,
}

} // verus!
