//! Retrieval of transfer events in batches of blocks.
//!
//! An `EventRetriever` holds the state of one retrieval: whoever drives it
//! asks for the next filter, fetches the matching log entries and the
//! timestamp of the filter's first block, and hands both back, until no
//! filter is asked for any more.
//!
//! Every event gets an estimated timestamp: that of the first block of its
//! batch plus twelve seconds for each block after it.

use crate::address::{Address, Topic};
use crate::amount::{be_value, Amount};
use crate::types::TransferEvent;
use vstd::prelude::*;

verus! {

/// The number of blocks that one request covers at most.
pub const BATCH_BLOCKS: u64 = 50;

/// The seconds assumed to pass from one block to the next.
pub const SECONDS_PER_BLOCK: u64 = 12;

/// What to ask the data source for: the log entries of one contract with one
/// first topic in the blocks `from_block..=to_block`.
#[derive(Clone, Copy, Debug, PartialEq, Eq)]
pub struct LogFilter {
    pub address: Address,
    pub topic0: Topic,
    pub from_block: u64,
    pub to_block: u64,
}

/// A log entry as the data source hands it out.
#[derive(Clone, Debug, PartialEq, Eq)]
pub struct RawLog {
    /// The indexed fields: event signature, sender, recipient.
    pub topics: Vec<Topic>,
    /// The payload: the amount in big-endian order.
    pub data: Vec<u8>,
    /// The block that holds the entry, if the data source told.
    pub block_number: Option<u64>,
}

/// Why a retrieval failed.
#[derive(Clone, Copy, Debug, PartialEq, Eq)]
pub enum RetrievalError {
    /// A well-formed log entry came without its block number.
    MissingBlockNumber,
}

/// The timestamp assigned to an event in `block` of a batch that starts at
/// `start_block`, whose timestamp is `start_timestamp`. A block before the
/// start counts as the start.
pub open spec fn estimated_timestamp(start_timestamp: u64, start_block: u64, block: u64) -> int {
    start_timestamp + (if block > start_block {
        block - start_block
    } else {
        0
    }) * SECONDS_PER_BLOCK
}

/// Whether the entry has the three indexed fields of a transfer.
pub open spec fn is_well_formed(log: RawLog) -> bool {
    log.topics@.len() >= 3
}

/// Whether the entry can be represented: a well-formed entry has an amount of
/// at most 32 bytes and an estimated timestamp within 64 bits.
pub open spec fn log_fits(log: RawLog, start_block: u64, start_timestamp: u64) -> bool {
    is_well_formed(log) ==> {
        &&& log.data@.len() <= 32
        &&& log.block_number matches Some(block) ==> estimated_timestamp(
            start_timestamp,
            start_block,
            block,
        ) <= u64::MAX
    }
}

/// Whether every entry of the batch can be represented.
pub open spec fn batch_fits(logs: Seq<RawLog>, start_block: u64, start_timestamp: u64) -> bool {
    forall|i: int| 0 <= i < logs.len() ==> log_fits(#[trigger] logs[i], start_block, start_timestamp)
}

/// Whether `event` is what the well-formed entry `log` says: sender and
/// recipient from the last 20 bytes of the second and third topic, the amount
/// from the payload, the block number, and the estimated timestamp.
pub open spec fn decodes_to(
    log: RawLog,
    start_block: u64,
    start_timestamp: u64,
    event: TransferEvent,
) -> bool {
    &&& is_well_formed(log)
    &&& log.block_number == Some(event.block_number)
    &&& event.from@ == log.topics@[1]@.subrange(12, 32)
    &&& event.to@ == log.topics@[2]@.subrange(12, 32)
    &&& event.value@ == be_value(log.data@)
    &&& event.timestamp == estimated_timestamp(start_timestamp, start_block, event.block_number)
}

/// Whether `events` are what the well-formed entries among `logs` say, one
/// event for each in the same order; malformed entries are passed over.
pub open spec fn decodes_batch(
    logs: Seq<RawLog>,
    start_block: u64,
    start_timestamp: u64,
    events: Seq<TransferEvent>,
) -> bool
    decreases logs.len(),
{
    if logs.len() == 0 {
        events.len() == 0
    } else if !is_well_formed(logs.last()) {
        decodes_batch(logs.drop_last(), start_block, start_timestamp, events)
    } else {
        &&& events.len() > 0
        &&& decodes_to(logs.last(), start_block, start_timestamp, events.last())
        &&& decodes_batch(logs.drop_last(), start_block, start_timestamp, events.drop_last())
    }
}

/// Whether some well-formed entry lacks its block number.
pub open spec fn lacks_block_number(logs: Seq<RawLog>) -> bool {
    exists|i: int|
        0 <= i < logs.len() && is_well_formed(#[trigger] logs[i]) && logs[i].block_number is None
}

/// The last block of the batch that starts at `next_block` in a retrieval up
/// to `to_block`.
pub open spec fn batch_end(next_block: u64, to_block: u64) -> u64 {
    if to_block >= next_block && to_block - next_block >= BATCH_BLOCKS {
        (next_block + BATCH_BLOCKS - 1) as u64
    } else {
        to_block
    }
}

/// The timestamp assigned to an event in `block` of a batch that starts at
/// `start_block`, or `None` where it is beyond 64 bits.
pub fn estimate_timestamp(start_timestamp: u64, start_block: u64, block: u64) -> (estimate: Option<
    u64,
>)
    ensures
        match estimate {
            Some(timestamp) => timestamp == estimated_timestamp(start_timestamp, start_block, block),
            None => estimated_timestamp(start_timestamp, start_block, block) > u64::MAX,
        },
{
    let blocks: u64 = if block > start_block {
        block - start_block
    } else {
        0
    };
    match blocks.checked_mul(SECONDS_PER_BLOCK) {
        Some(seconds) => start_timestamp.checked_add(seconds),
        None => None,
    }
}

/// Whether the entry can be represented.
pub fn check_log(log: &RawLog, start_block: u64, start_timestamp: u64) -> (fits: bool)
    ensures
        fits == log_fits(*log, start_block, start_timestamp),
{
    if log.topics.len() < 3 {
        true
    } else if log.data.len() > 32 {
        false
    } else {
        match log.block_number {
            Some(block) => estimate_timestamp(start_timestamp, start_block, block).is_some(),
            None => true,
        }
    }
}

/// Whether every entry of the batch can be represented.
pub fn check_batch(logs: &Vec<RawLog>, start_block: u64, start_timestamp: u64) -> (fits: bool)
    ensures
        fits == batch_fits(logs@, start_block, start_timestamp),
{
    let mut done: usize = 0;
    while done < logs.len()
        invariant
            done <= logs.len(),
            forall|i: int|
                0 <= i < done ==> log_fits(#[trigger] logs[i], start_block, start_timestamp),
        decreases logs.len() - done,
    {
        if !check_log(&logs[done], start_block, start_timestamp) {
            return false;
        }
        done += 1;
    }
    true
}

/// Decodes one log entry: `None` for a malformed entry, the event for a
/// well-formed one, and an error where a well-formed entry lacks its block
/// number.
pub fn decode_log(log: &RawLog, start_block: u64, start_timestamp: u64) -> (decoded: Result<
    Option<TransferEvent>,
    RetrievalError,
>)
    requires
        log_fits(*log, start_block, start_timestamp),
    ensures
        match decoded {
            Ok(None) => !is_well_formed(*log),
            Ok(Some(event)) => decodes_to(*log, start_block, start_timestamp, event),
            Err(error) => is_well_formed(*log) && log.block_number is None && error
                == RetrievalError::MissingBlockNumber,
        },
{
    if log.topics.len() < 3 {
        return Ok(None);
    }
    let from = Address::from_topic(&log.topics[1]);
    let to = Address::from_topic(&log.topics[2]);
    let value = Amount::from_be_bytes(log.data.as_slice());
    match log.block_number {
        None => Err(RetrievalError::MissingBlockNumber),
        Some(block_number) => {
            let timestamp = match estimate_timestamp(start_timestamp, start_block, block_number) {
                Some(estimate) => estimate,
                None => start_timestamp,
            };
            Ok(Some(TransferEvent { from, to, value, block_number, timestamp }))
        },
    }
}

/// Decodes the log entries of one batch, in order. Malformed entries are
/// passed over; a well-formed entry without block number fails the batch.
pub fn decode_batch(logs: &Vec<RawLog>, start_block: u64, start_timestamp: u64) -> (decoded: Result<
    Vec<TransferEvent>,
    RetrievalError,
>)
    requires
        batch_fits(logs@, start_block, start_timestamp),
    ensures
        match decoded {
            Ok(events) => !lacks_block_number(logs@) && decodes_batch(
                logs@,
                start_block,
                start_timestamp,
                events@,
            ),
            Err(error) => lacks_block_number(logs@) && error == RetrievalError::MissingBlockNumber,
        },
{
    let mut events: Vec<TransferEvent> = Vec::new();
    let mut done: usize = 0;
    proof {
        assert(logs@.take(0) =~= Seq::<RawLog>::empty());
    }
    while done < logs.len()
        invariant
            done <= logs.len(),
            batch_fits(logs@, start_block, start_timestamp),
            decodes_batch(logs@.take(done as int), start_block, start_timestamp, events@),
            forall|i: int|
                0 <= i < done ==> !(is_well_formed(#[trigger] logs[i]) && logs[i].block_number
                    is None),
        decreases logs.len() - done,
    {
        let ghost before = events@;
        proof {
            assert(logs@.take(done + 1).drop_last() =~= logs@.take(done as int));
            assert(logs@.take(done + 1).last() == logs@[done as int]);
        }
        match decode_log(&logs[done], start_block, start_timestamp) {
            Ok(None) => {},
            Ok(Some(event)) => {
                events.push(event);
                proof {
                    assert(events@.drop_last() =~= before);
                }
            },
            Err(error) => {
                return Err(error);
            },
        }
        done += 1;
    }
    proof {
        assert(logs@.take(done as int) =~= logs@);
    }
    Ok(events)
}

/// The state of one retrieval of the transfers of `contract` in the blocks
/// `from_block..=to_block`.
#[derive(Clone, Debug, PartialEq, Eq)]
pub struct EventRetriever {
    pub contract: Address,
    pub topic: Topic,
    pub from_block: u64,
    pub to_block: u64,
    /// The first block not yet retrieved.
    pub next_block: u64,
    /// Whether all blocks were retrieved.
    pub finished: bool,
    /// The events retrieved so far, in ascending order of batches.
    pub events: Vec<TransferEvent>,
}

impl EventRetriever {
    /// Whether the state can be reached: the blocks not yet retrieved are a
    /// whole number of batches away from the first block.
    pub open spec fn wf(self) -> bool {
        self.finished || (self.from_block <= self.next_block <= self.to_block && (self.next_block
            - self.from_block) % (BATCH_BLOCKS as int) == 0)
    }

    /// The filter of the next batch.
    pub open spec fn next_filter(self) -> LogFilter {
        LogFilter {
            address: self.contract,
            topic0: self.topic,
            from_block: self.next_block,
            to_block: batch_end(self.next_block, self.to_block),
        }
    }

    /// Whether the retrieval of `from_block..=to_block` has fetched nothing
    /// yet. An empty range of blocks is finished at once.
    pub open spec fn is_fresh(self, from_block: u64, to_block: u64) -> bool {
        &&& self.from_block == from_block
        &&& self.to_block == to_block
        &&& self.next_block == from_block
        &&& self.finished == (from_block > to_block)
        &&& self.events@.len() == 0
    }

    /// A retrieval that has fetched nothing yet.
    pub fn new(contract: Address, topic: Topic, from_block: u64, to_block: u64) -> (retriever:
        EventRetriever)
        ensures
            retriever.contract == contract,
            retriever.topic == topic,
            retriever.is_fresh(from_block, to_block),
            retriever.wf(),
    {
        EventRetriever {
            contract,
            topic,
            from_block,
            to_block,
            next_block: from_block,
            finished: from_block > to_block,
            events: Vec::new(),
        }
    }

    /// What to fetch next: the log entries that match the filter, and the
    /// timestamp of the filter's first block. `None` when all is retrieved.
    pub fn next_request(&self) -> (filter: Option<LogFilter>)
        ensures
            filter == (if self.finished {
                None
            } else {
                Some(self.next_filter())
            }),
            self.wf() && !self.finished ==> self.from_block <= self.next_filter().from_block
                <= self.next_filter().to_block <= self.to_block && self.next_filter().to_block
                - self.next_filter().from_block < BATCH_BLOCKS,
    {
        if self.finished {
            None
        } else {
            let end = if self.to_block >= self.next_block && self.to_block - self.next_block
                >= BATCH_BLOCKS {
                self.next_block + (BATCH_BLOCKS - 1)
            } else {
                self.to_block
            };
            Some(
                LogFilter {
                    address: self.contract,
                    topic0: self.topic,
                    from_block: self.next_block,
                    to_block: end,
                },
            )
        }
    }

    /// Takes in what was fetched for the filter that `next_request` gave: the
    /// events of the batch are appended and the retrieval moves on to the
    /// block after the batch, or is finished where the batch was the last.
    /// Where the batch fails, the retrieval stays as it was. A finished
    /// retrieval takes in nothing.
    ///
    /// Every entry of the batch must be representable; `check_batch` tells.
    pub fn accept_batch(&mut self, logs: &Vec<RawLog>, start_timestamp: u64) -> (outcome: Result<
        (),
        RetrievalError,
    >)
        requires
            !old(self).finished ==> batch_fits(logs@, old(self).next_block, start_timestamp),
        ensures
            final(self).contract == old(self).contract,
            final(self).topic == old(self).topic,
            final(self).from_block == old(self).from_block,
            final(self).to_block == old(self).to_block,
            old(self).wf() ==> final(self).wf(),
            old(self).finished ==> outcome is Ok && *final(self) == *old(self),
            !old(self).finished ==> (outcome is Err <==> lacks_block_number(logs@)),
            outcome matches Err(error) ==> error == RetrievalError::MissingBlockNumber
                && *final(self) == *old(self),
            !old(self).finished && outcome is Ok ==> {
                &&& final(self).events@.len() >= old(self).events@.len()
                &&& final(self).events@.take(old(self).events@.len() as int) == old(self).events@
                &&& decodes_batch(
                    logs@,
                    old(self).next_block,
                    start_timestamp,
                    final(self).events@.skip(old(self).events@.len() as int),
                )
                &&& final(self).finished == (batch_end(old(self).next_block, old(self).to_block)
                    >= old(self).to_block)
                &&& !final(self).finished ==> final(self).next_block == batch_end(
                    old(self).next_block,
                    old(self).to_block,
                ) + 1
                &&& final(self).finished ==> final(self).next_block == old(self).next_block
            },
    {
        if self.finished {
            return Ok(());
        }
        let mut decoded = match decode_batch(logs, self.next_block, start_timestamp) {
            Ok(events) => events,
            Err(error) => {
                return Err(error);
            },
        };
        let ghost before = self.events@;
        let ghost added = decoded@;
        self.events.append(&mut decoded);
        proof {
            assert(self.events@.take(before.len() as int) =~= before);
            assert(self.events@.skip(before.len() as int) =~= added);
        }
        if self.to_block >= self.next_block && self.to_block - self.next_block >= BATCH_BLOCKS {
            self.next_block = self.next_block + BATCH_BLOCKS;
        } else {
            self.finished = true;
        }
        Ok(())
    }

    /// The events retrieved.
    pub fn into_events(self) -> (events: Vec<TransferEvent>)
        ensures
            events == self.events,
    {
        self.events
    }
}

/// The first block of the batch with the given index in a retrieval from
/// `from_block` on.
pub open spec fn batch_first(from_block: u64, index: nat) -> int {
    from_block + index * BATCH_BLOCKS
}

/// The last block of the batch with the given index in a retrieval of
/// `from_block..=to_block`.
pub open spec fn batch_last(from_block: u64, to_block: u64, index: nat) -> int {
    if batch_first(from_block, index) + BATCH_BLOCKS - 1 < to_block {
        batch_first(from_block, index) + BATCH_BLOCKS - 1
    } else {
        to_block as int
    }
}

/// The batches part the blocks of a retrieval among them: a block lies in the
/// batch whose index is its distance from the first block divided by the
/// batch width, and in no other.
pub proof fn lemma_batches_partition(from_block: u64, to_block: u64, block: u64, index: nat)
    requires
        from_block <= block <= to_block,
    ensures
        (batch_first(from_block, index) <= block <= batch_last(from_block, to_block, index))
            <==> index == (block - from_block) / (BATCH_BLOCKS as int),
{
}

/// A retrieval under way asks for a whole batch: the one that its next block
/// starts.
pub proof fn lemma_next_filter_is_batch(retriever: EventRetriever)
    requires
        retriever.wf(),
        !retriever.finished,
    ensures
        retriever.next_filter().from_block == batch_first(
            retriever.from_block,
            ((retriever.next_block - retriever.from_block) / (BATCH_BLOCKS as int)) as nat,
        ),
        retriever.next_filter().to_block == batch_last(
            retriever.from_block,
            retriever.to_block,
            ((retriever.next_block - retriever.from_block) / (BATCH_BLOCKS as int)) as nat,
        ),
{
}

} // verus!
