//! Transfer analytics for a stablecoin: how much of the token moved in a time
//! window, when, and who sent it.
//!
//! - `resolver` finds the block range of a time window by bisection over
//!   block timestamps.
//! - `retriever` fetches the transfer events of a block range in batches and
//!   decodes them from raw log entries.
//! - `totals` defines the total that events move; `volume` sums the events
//!   up in 30-minute buckets.
//! - `senders` ranks the senders and cuts the ranking at 90% of the total.
//! - `stats` puts both charts and the total together.
//! - `codec` renders amounts exactly; `amount` and `address` hold the 256-bit
//!   amounts and the addresses, with their arithmetic and text forms done by
//!   `ethers`.
//! - `pipeline` strings resolution and retrieval together, from a time window
//!   to its events.
//! - `client` and `query` hold what is configured and requested.
//!
//! The library does no input or output itself. Searches and retrievals are
//! state machines: the caller performs each lookup they ask for and hands the
//! answer back.

pub mod address;
pub mod amount;
pub mod client;
pub mod codec;
pub mod pipeline;
pub mod query;
pub mod resolver;
pub mod retriever;
pub mod senders;
pub mod stats;
pub mod sums;
pub mod totals;
pub mod types;
pub mod volume;
