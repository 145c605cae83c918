//! From a time window to the transfer events in it.
//!
//! A `Pipeline` strings the steps together: it resolves the start of the
//! window to a block, then the end, and then retrieves the events of the
//! blocks between. Whoever drives it asks what is wanted next, looks it up,
//! and hands the answer back, until nothing is wanted any more.

use crate::address::keccak256_digest;
use crate::client::BlockchainClient;
use crate::query::TimeWindow;
use crate::resolver::{is_monotonic, is_resolution, lemma_search_step, BlockSearch};
use crate::retriever::{
    batch_fits, decodes_batch, lacks_block_number, EventRetriever, LogFilter, RawLog,
    RetrievalError,
};
use crate::types::TransferEvent;
use vstd::prelude::*;

verus! {

/// How far a pipeline has come.
#[derive(Clone, Copy, Debug, PartialEq, Eq)]
pub enum Stage {
    /// The latest block is wanted, to search for the start of the window.
    StartLatest,
    /// The search for the block of the window's start is under way.
    StartSearch(BlockSearch),
    /// The first block is found; the latest block is wanted, to search for
    /// the end of the window.
    EndLatest(u64),
    /// The first block is found; the search for the block of the window's
    /// end is under way.
    EndSearch(u64, BlockSearch),
    /// Both blocks are found; the events between them are being retrieved.
    Retrieval,
    /// All events are retrieved.
    Complete,
}

/// What a pipeline wants next.
#[derive(Clone, Copy, Debug, PartialEq, Eq)]
pub enum Request {
    /// The number of the latest block.
    LatestBlock,
    /// The timestamp of the block with this number.
    BlockTimestamp(u64),
    /// The log entries that match the filter, and the timestamp of the
    /// filter's first block.
    Logs(LogFilter),
    /// Nothing more.
    Nothing,
}

/// The state of one run from a time window to its events.
#[derive(Clone, Debug, PartialEq, Eq)]
pub struct Pipeline {
    pub client: BlockchainClient,
    pub window: TimeWindow,
    pub stage: Stage,
    /// The retrieval; it is begun when both blocks are found.
    pub retriever: EventRetriever,
}

/// The stage after a search for the window's start has taken a step: the
/// search goes on, or its block is the first block.
pub open spec fn start_stage(search: BlockSearch) -> Stage {
    if search.is_done() {
        Stage::EndLatest(search.low)
    } else {
        Stage::StartSearch(search)
    }
}

/// The stage of a retrieval: under way, or complete when it is finished.
pub open spec fn retrieval_stage(finished: bool) -> Stage {
    if finished {
        Stage::Complete
    } else {
        Stage::Retrieval
    }
}

impl Pipeline {
    /// Whether the pipeline is where a search for the window's end, begun
    /// when the first block was `from_block`, leaves it after a step: the
    /// search goes on, or a fresh retrieval from `from_block` to the block
    /// found is begun.
    pub open spec fn follows_end_search(
        self,
        before: Pipeline,
        from_block: u64,
        search: BlockSearch,
    ) -> bool {
        if search.is_done() {
            &&& self.stage == retrieval_stage(from_block > search.low)
            &&& self.retriever.contract == before.client.usdt_address
            &&& self.retriever.topic@ == keccak256_digest("Transfer(address,address,uint256)"@)
            &&& self.retriever.is_fresh(from_block, search.low)
            &&& self.retriever.wf()
        } else {
            &&& self.stage == Stage::EndSearch(from_block, search)
            &&& self.retriever == before.retriever
        }
    }

    /// Whether the pipeline is on its way to the events of its window in a
    /// chain with the given block timestamps: a search under way brackets
    /// what its end of the window resolves to, and a block found is what its
    /// end of the window resolves to.
    pub open spec fn on_track(self, timestamps: Seq<u64>) -> bool {
        match self.stage {
            Stage::StartLatest => true,
            Stage::StartSearch(search) => {
                &&& search.target == self.window.start_timestamp
                &&& search.brackets(timestamps)
                &&& !search.is_done()
            },
            Stage::EndLatest(from_block) => is_resolution(
                timestamps,
                self.window.start_timestamp,
                from_block as int,
            ),
            Stage::EndSearch(from_block, search) => {
                &&& is_resolution(timestamps, self.window.start_timestamp, from_block as int)
                &&& search.target == self.window.end_timestamp
                &&& search.brackets(timestamps)
                &&& !search.is_done()
            },
            _ => {
                &&& is_resolution(
                    timestamps,
                    self.window.start_timestamp,
                    self.retriever.from_block as int,
                )
                &&& is_resolution(
                    timestamps,
                    self.window.end_timestamp,
                    self.retriever.to_block as int,
                )
                &&& self.retriever.wf()
                &&& self.stage == retrieval_stage(self.retriever.finished)
            },
        }
    }

    /// A pipeline for the window on the client's chain, with nothing done
    /// yet.
    pub fn new(client: BlockchainClient, window: TimeWindow) -> (pipeline: Pipeline)
        ensures
            pipeline.client == client,
            pipeline.window == window,
            pipeline.stage == Stage::StartLatest,
            forall|timestamps: Seq<u64>| #[trigger] pipeline.on_track(timestamps),
    {
        let retriever = client.fetch_transfer_events(1, 0);
        Pipeline { client, window, stage: Stage::StartLatest, retriever }
    }

    /// What the pipeline wants next.
    pub fn request(&self) -> (request: Request)
        ensures
            request == (match self.stage {
                Stage::StartLatest => Request::LatestBlock,
                Stage::EndLatest(_) => Request::LatestBlock,
                Stage::StartSearch(search) => if search.is_done() {
                    Request::Nothing
                } else {
                    Request::BlockTimestamp(search.middle())
                },
                Stage::EndSearch(_, search) => if search.is_done() {
                    Request::Nothing
                } else {
                    Request::BlockTimestamp(search.middle())
                },
                Stage::Retrieval => if self.retriever.finished {
                    Request::Nothing
                } else {
                    Request::Logs(self.retriever.next_filter())
                },
                Stage::Complete => Request::Nothing,
            }),
    {
        match self.stage {
            Stage::StartLatest => Request::LatestBlock,
            Stage::EndLatest(_) => Request::LatestBlock,
            Stage::StartSearch(search) => match search.next_probe() {
                Some(block) => Request::BlockTimestamp(block),
                None => Request::Nothing,
            },
            Stage::EndSearch(_, search) => match search.next_probe() {
                Some(block) => Request::BlockTimestamp(block),
                None => Request::Nothing,
            },
            Stage::Retrieval => match self.retriever.next_request() {
                Some(filter) => Request::Logs(filter),
                None => Request::Nothing,
            },
            Stage::Complete => Request::Nothing,
        }
    }

    /// Moves on from a search for the window's end that has taken a step.
    fn after_end_search(&mut self, from_block: u64, search: BlockSearch)
        ensures
            final(self).client == old(self).client,
            final(self).window == old(self).window,
            final(self).follows_end_search(*old(self), from_block, search),
    {
        match search.next_probe() {
            Some(_) => {
                self.stage = Stage::EndSearch(from_block, search);
            },
            None => {
                let to_block = search.block();
                self.retriever = self.client.fetch_transfer_events(from_block, to_block);
                self.stage = if from_block > to_block {
                    Stage::Complete
                } else {
                    Stage::Retrieval
                };
            },
        }
    }

    /// Takes in the number of the latest block, which begins the search that
    /// waits for it. Where no latest block is wanted, the pipeline stays as
    /// it is.
    pub fn latest_block(&mut self, number: u64)
        ensures
            final(self).client == old(self).client,
            final(self).window == old(self).window,
            match old(self).stage {
                Stage::StartLatest => final(self).retriever == old(self).retriever
                    && final(self).stage == start_stage(
                    BlockSearch { target: old(self).window.start_timestamp, low: 0, high: number },
                ),
                Stage::EndLatest(from_block) => final(self).follows_end_search(
                    *old(self),
                    from_block,
                    BlockSearch { target: old(self).window.end_timestamp, low: 0, high: number },
                ),
                _ => *final(self) == *old(self),
            },
            forall|timestamps: Seq<u64>|
                timestamps.len() == number + 1 && #[trigger] old(self).on_track(timestamps)
                    ==> final(self).on_track(timestamps),
    {
        match self.stage {
            Stage::StartLatest => {
                let search = self.client.timestamp_to_block(self.window.start_timestamp, number);
                self.stage = match search.next_probe() {
                    Some(_) => Stage::StartSearch(search),
                    None => Stage::EndLatest(search.block()),
                };
            },
            Stage::EndLatest(from_block) => {
                let search = self.client.timestamp_to_block(self.window.end_timestamp, number);
                self.after_end_search(from_block, search);
            },
            _ => {},
        }
    }

    /// Takes in the timestamp of the block that was asked for, which is a
    /// step of the search under way. Where no search is under way, the
    /// pipeline stays as it is.
    pub fn block_timestamp(&mut self, timestamp: u64)
        ensures
            final(self).client == old(self).client,
            final(self).window == old(self).window,
            match old(self).stage {
                Stage::StartSearch(search) => final(self).retriever == old(self).retriever
                    && final(self).stage == start_stage(search.after(timestamp)),
                Stage::EndSearch(from_block, search) => final(self).follows_end_search(
                    *old(self),
                    from_block,
                    search.after(timestamp),
                ),
                _ => *final(self) == *old(self),
            },
            forall|timestamps: Seq<u64>|
                is_monotonic(timestamps) && #[trigger] old(self).on_track(timestamps) && (match old(
                    self,
                ).stage {
                    Stage::StartSearch(search) => timestamp == timestamps[search.middle() as int],
                    Stage::EndSearch(_, search) => timestamp == timestamps[search.middle() as int],
                    _ => true,
                }) ==> final(self).on_track(timestamps),
    {
        proof {
            assert forall|timestamps: Seq<u64>|
                is_monotonic(timestamps) && #[trigger] self.on_track(timestamps) implies (match self.stage {
                Stage::StartSearch(search) => timestamp == timestamps[search.middle() as int]
                    ==> search.after(timestamp).brackets(timestamps),
                Stage::EndSearch(_, search) => timestamp == timestamps[search.middle() as int]
                    ==> search.after(timestamp).brackets(timestamps),
                _ => true,
            }) by {
                match self.stage {
                    Stage::StartSearch(search) => {
                        if timestamp == timestamps[search.middle() as int] {
                            lemma_search_step(search, timestamps);
                        }
                    },
                    Stage::EndSearch(_, search) => {
                        if timestamp == timestamps[search.middle() as int] {
                            lemma_search_step(search, timestamps);
                        }
                    },
                    _ => {},
                }
            }
        }
        match self.stage {
            Stage::StartSearch(search) => {
                let mut search = search;
                search.observe(timestamp);
                self.stage = match search.next_probe() {
                    Some(_) => Stage::StartSearch(search),
                    None => Stage::EndLatest(search.block()),
                };
            },
            Stage::EndSearch(from_block, search) => {
                let mut search = search;
                search.observe(timestamp);
                self.after_end_search(from_block, search);
            },
            _ => {},
        }
    }

    /// Takes in the log entries that were asked for and the timestamp of the
    /// filter's first block: the events of the batch are appended, and the
    /// pipeline is complete where the batch was the last. Where the batch
    /// fails or no retrieval is under way, the pipeline stays as it is.
    ///
    /// Every entry of the batch must be representable; `check_batch` tells.
    pub fn logs(&mut self, logs: &Vec<RawLog>, start_timestamp: u64) -> (outcome: Result<
        (),
        RetrievalError,
    >)
        requires
            old(self).stage == Stage::Retrieval && !old(self).retriever.finished ==> batch_fits(
                logs@,
                old(self).retriever.next_block,
                start_timestamp,
            ),
        ensures
            final(self).client == old(self).client,
            final(self).window == old(self).window,
            old(self).stage != Stage::Retrieval ==> outcome is Ok && *final(self) == *old(self),
            old(self).stage == Stage::Retrieval && !old(self).retriever.finished ==> (outcome
                is Err <==> lacks_block_number(logs@)),
            outcome matches Err(error) ==> error == RetrievalError::MissingBlockNumber
                && *final(self) == *old(self),
            forall|timestamps: Seq<u64>| #[trigger]
                old(self).on_track(timestamps) ==> final(self).on_track(timestamps),
            old(self).stage == Stage::Retrieval && outcome is Ok ==> {
                &&& final(self).stage == retrieval_stage(final(self).retriever.finished)
                &&& old(self).retriever.wf() ==> final(self).retriever.wf()
                &&& old(self).retriever.finished ==> final(self).retriever == old(self).retriever
                &&& !old(self).retriever.finished ==> {
                    &&& final(self).retriever.events@.len() >= old(self).retriever.events@.len()
                    &&& final(self).retriever.events@.take(
                        old(self).retriever.events@.len() as int,
                    ) == old(self).retriever.events@
                    &&& decodes_batch(
                        logs@,
                        old(self).retriever.next_block,
                        start_timestamp,
                        final(self).retriever.events@.skip(old(self).retriever.events@.len() as int),
                    )
                    &&& final(self).retriever.next_filter().from_block
                        == old(self).retriever.next_filter().to_block + 1
                        || final(self).retriever.finished
                }
            },
    {
        match self.stage {
            Stage::Retrieval => {
                match self.retriever.accept_batch(logs, start_timestamp) {
                    Ok(()) => {
                        if self.retriever.finished {
                            self.stage = Stage::Complete;
                        }
                        Ok(())
                    },
                    Err(error) => Err(error),
                }
            },
            _ => Ok(()),
        }
    }

    /// The events retrieved; they are all events of the window once the
    /// pipeline is complete.
    pub fn into_events(self) -> (events: Vec<TransferEvent>)
        ensures
            events == self.retriever.events,
    {
        self.retriever.into_events()
    }
}

} // verus!
