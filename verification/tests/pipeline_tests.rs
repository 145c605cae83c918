use transfer_analytics::address::{transfer_event_topic, Address, Topic};
use transfer_analytics::client::BlockchainClient;
use transfer_analytics::pipeline::{Pipeline, Request, Stage};
use transfer_analytics::query::TimeWindow;
use transfer_analytics::retriever::{RawLog, RetrievalError};
use transfer_analytics::stats::process_transfer_events;
use transfer_analytics::types::TransferEvent;

const USDT: &str = "0xdAC17F958D2ee523a2206206994597C13D831ec7";

/// A chain of `blocks` blocks, one every 12 seconds from second 1000 on, with
/// one transfer of `block` units in every tenth block.
struct Chain {
    blocks: u64,
    lookups: Vec<Request>,
}

fn topic_of(tag: u8) -> Topic {
    let mut bytes = [0u8; 32];
    bytes[31] = tag;
    Topic { bytes }
}

fn account(tag: u8) -> Address {
    let mut bytes = [0u8; 20];
    bytes[19] = tag;
    Address { bytes }
}

impl Chain {
    fn timestamp(&self, block: u64) -> u64 {
        1000 + 12 * block
    }

    fn logs(&self, from_block: u64, to_block: u64) -> Vec<RawLog> {
        (from_block..=to_block)
            .filter(|block| block % 10 == 0)
            .map(|block| RawLog {
                topics: vec![transfer_event_topic(), topic_of((block % 3) as u8), topic_of(9)],
                data: block.to_be_bytes().to_vec(),
                block_number: Some(block),
            })
            .collect()
    }

    fn run(&mut self, window: TimeWindow) -> Result<Vec<TransferEvent>, RetrievalError> {
        let client = BlockchainClient::new("http://localhost:8545", USDT).unwrap();
        let mut pipeline = Pipeline::new(client, window);
        loop {
            let request = pipeline.request();
            self.lookups.push(request);
            match request {
                Request::LatestBlock => pipeline.latest_block(self.blocks - 1),
                Request::BlockTimestamp(block) => pipeline.block_timestamp(self.timestamp(block)),
                Request::Logs(filter) => {
                    assert_eq!(filter.address, pipeline.client.usdt_address);
                    let logs = self.logs(filter.from_block, filter.to_block);
                    pipeline.logs(&logs, self.timestamp(filter.from_block))?;
                }
                Request::Nothing => break,
            }
        }
        assert_eq!(pipeline.stage, Stage::Complete);
        Ok(pipeline.into_events())
    }
}

#[test]
fn pipeline_collects_the_events_of_the_window() {
    let mut chain = Chain { blocks: 1000, lookups: Vec::new() };
    let window = TimeWindow { start_timestamp: 1000 + 12 * 95, end_timestamp: 1000 + 12 * 250 + 5 };
    let events = chain.run(window).unwrap();
    let blocks: Vec<u64> = events.iter().map(|event| event.block_number).collect();
    assert_eq!(
        blocks,
        vec![100, 110, 120, 130, 140, 150, 160, 170, 180, 190, 200, 210, 220, 230, 240, 250]
    );
    assert_eq!(events[0].from, account(1));
    assert_eq!(events[0].timestamp, 1000 + 12 * 100);
    assert_eq!(events[15].timestamp, 1000 + 12 * 250);
    let batches: Vec<(u64, u64)> = chain
        .lookups
        .iter()
        .filter_map(|request| match request {
            Request::Logs(filter) => Some((filter.from_block, filter.to_block)),
            _ => None,
        })
        .collect();
    assert_eq!(batches, vec![(95, 144), (145, 194), (195, 244), (245, 251)]);
    assert_eq!(chain.lookups[0], Request::LatestBlock);
    assert_eq!(chain.lookups.iter().filter(|request| **request == Request::LatestBlock).count(), 2);
}

#[test]
fn pipeline_with_a_window_before_the_chain_takes_block_zero_only() {
    let mut chain = Chain { blocks: 100, lookups: Vec::new() };
    let events = chain.run(TimeWindow { start_timestamp: 0, end_timestamp: 10 }).unwrap();
    let blocks: Vec<u64> = events.iter().map(|event| event.block_number).collect();
    assert_eq!(blocks, vec![0]);
}

#[test]
fn pipeline_with_a_window_after_the_chain_takes_the_latest_block_only() {
    let mut chain = Chain { blocks: 91, lookups: Vec::new() };
    let window = TimeWindow { start_timestamp: 1_000_000, end_timestamp: 2_000_000 };
    let events = chain.run(window).unwrap();
    let blocks: Vec<u64> = events.iter().map(|event| event.block_number).collect();
    assert_eq!(blocks, vec![90]);
}

#[test]
fn pipeline_with_a_reversed_window_finds_nothing() {
    let mut chain = Chain { blocks: 100, lookups: Vec::new() };
    let window = TimeWindow { start_timestamp: 1000 + 12 * 50, end_timestamp: 1000 + 12 * 20 };
    assert_eq!(chain.run(window), Ok(Vec::new()));
    assert!(chain.lookups.iter().all(|request| !matches!(request, Request::Logs(_))));
}

#[test]
fn pipeline_on_a_chain_of_one_block_needs_no_search() {
    let mut chain = Chain { blocks: 1, lookups: Vec::new() };
    let events = chain.run(TimeWindow { start_timestamp: 5, end_timestamp: 6 }).unwrap();
    assert_eq!(events.len(), 1);
    assert!(chain.lookups.iter().all(|request| !matches!(request, Request::BlockTimestamp(_))));
}

#[test]
fn pipeline_fails_where_a_batch_fails() {
    let client = BlockchainClient::new("http://localhost:8545", USDT).unwrap();
    let mut pipeline = Pipeline::new(client, TimeWindow { start_timestamp: 0, end_timestamp: 0 });
    pipeline.latest_block(0);
    pipeline.latest_block(0);
    assert_eq!(pipeline.stage, Stage::Retrieval);
    let before = pipeline.clone();
    let broken = RawLog {
        topics: vec![transfer_event_topic(), topic_of(1), topic_of(2)],
        data: vec![1],
        block_number: None,
    };
    assert_eq!(pipeline.logs(&vec![broken], 0), Err(RetrievalError::MissingBlockNumber));
    assert_eq!(pipeline, before);
}

#[test]
fn pipeline_ignores_answers_it_did_not_ask_for() {
    let client = BlockchainClient::new("http://localhost:8545", USDT).unwrap();
    let mut pipeline = Pipeline::new(client, TimeWindow { start_timestamp: 0, end_timestamp: 0 });
    let fresh = pipeline.clone();
    pipeline.block_timestamp(7);
    assert_eq!(pipeline.logs(&Vec::new(), 7), Ok(()));
    assert_eq!(pipeline, fresh);
    pipeline.latest_block(100);
    let searching = pipeline.clone();
    assert!(matches!(pipeline.stage, Stage::StartSearch(_)));
    pipeline.latest_block(5);
    assert_eq!(pipeline, searching);
}

#[test]
fn pipeline_events_feed_the_statistics() {
    let mut chain = Chain { blocks: 400, lookups: Vec::new() };
    let window = TimeWindow { start_timestamp: 1000, end_timestamp: 1000 + 12 * 300 };
    let stats = process_transfer_events(chain.run(window).unwrap());
    assert_eq!(stats.total_volume, "0.004650");
    assert_eq!(stats.volume_chart.len(), 3);
    assert_eq!(stats.volume_chart[0].timestamp, 0);
    assert_eq!(stats.volume_chart[1].timestamp, 1800);
    assert_eq!(stats.volume_chart[2].timestamp, 3600);
}
