use transfer_analytics::address::{transfer_event_topic, Address, Topic};
use transfer_analytics::amount::Amount;
use transfer_analytics::retriever::{
    check_batch, check_log, decode_batch, decode_log, estimate_timestamp, EventRetriever,
    LogFilter, RawLog, RetrievalError,
};
use transfer_analytics::stats::process_transfer_events;
use transfer_analytics::types::TransferEvent;

fn account(tag: u8) -> Address {
    let mut bytes = [0u8; 20];
    bytes[19] = tag;
    Address { bytes }
}

fn topic_of(tag: u8) -> Topic {
    let mut bytes = [0u8; 32];
    bytes[0] = 0xee;
    bytes[31] = tag;
    Topic { bytes }
}

fn amount_bytes(value: u64) -> Vec<u8> {
    let mut data = vec![0u8; 24];
    data.extend_from_slice(&value.to_be_bytes());
    data
}

fn log(from: u8, to: u8, value: u64, block: u64) -> RawLog {
    RawLog {
        topics: vec![transfer_event_topic(), topic_of(from), topic_of(to)],
        data: amount_bytes(value),
        block_number: Some(block),
    }
}

fn malformed(block: u64) -> RawLog {
    RawLog { topics: vec![transfer_event_topic(), topic_of(1)], data: amount_bytes(99), block_number: Some(block) }
}

#[test]
fn estimate_adds_twelve_seconds_a_block() {
    assert_eq!(estimate_timestamp(1_000, 100, 100), Some(1_000));
    assert_eq!(estimate_timestamp(1_000, 100, 149), Some(1_588));
    assert_eq!(estimate_timestamp(1_000, 100, 7), Some(1_000));
    assert_eq!(estimate_timestamp(u64::MAX - 11, 0, 1), None);
    assert_eq!(estimate_timestamp(u64::MAX - 12, 0, 1), Some(u64::MAX));
    assert_eq!(estimate_timestamp(0, 0, u64::MAX), None);
}

#[test]
fn decode_log_reads_sender_recipient_amount_and_time() {
    let decoded = decode_log(&log(5, 6, 1_500_000, 120), 100, 50_000);
    assert_eq!(
        decoded,
        Ok(Some(TransferEvent {
            from: account(5),
            to: account(6),
            value: Amount::from_u64(1_500_000),
            block_number: 120,
            timestamp: 50_240,
        }))
    );
}

#[test]
fn decode_log_passes_over_an_entry_with_too_few_topics() {
    assert_eq!(decode_log(&malformed(3), 0, 0), Ok(None));
    let bare = RawLog { topics: Vec::new(), data: vec![1; 64], block_number: None };
    assert_eq!(decode_log(&bare, 0, 0), Ok(None));
}

#[test]
fn decode_log_fails_without_block_number() {
    let mut entry = log(1, 2, 3, 4);
    entry.block_number = None;
    assert_eq!(decode_log(&entry, 0, 0), Err(RetrievalError::MissingBlockNumber));
}

#[test]
fn check_log_tells_what_cannot_be_represented() {
    assert!(check_log(&log(1, 2, 3, 4), 0, 0));
    let mut long = log(1, 2, 3, 4);
    long.data.push(0);
    assert!(!check_log(&long, 0, 0));
    assert!(!check_log(&log(1, 2, 3, 4), 0, u64::MAX - 40));
    assert!(check_log(&log(1, 2, 3, 4), 0, u64::MAX - 48));
    let bare = RawLog { topics: Vec::new(), data: vec![1; 64], block_number: None };
    assert!(check_log(&bare, 0, 0));
    assert!(check_batch(&vec![log(1, 2, 3, 4), bare.clone()], 0, 0));
    assert!(!check_batch(&vec![log(1, 2, 3, 4), bare, long], 0, 0));
}

#[test]
fn decode_batch_keeps_order_and_skips_malformed_entries() {
    let logs = vec![log(1, 2, 10, 100), malformed(101), log(3, 4, 20, 102)];
    let events = decode_batch(&logs, 100, 1_000).unwrap();
    assert_eq!(events.len(), 2);
    assert_eq!(events[0].from, account(1));
    assert_eq!(events[0].timestamp, 1_000);
    assert_eq!(events[1].from, account(3));
    assert_eq!(events[1].timestamp, 1_024);
}

#[test]
fn decode_batch_fails_where_a_block_number_is_missing() {
    let mut broken = log(3, 4, 20, 102);
    broken.block_number = None;
    let logs = vec![log(1, 2, 10, 100), broken];
    assert_eq!(decode_batch(&logs, 100, 1_000), Err(RetrievalError::MissingBlockNumber));
}

#[test]
fn retrieval_asks_for_batches_of_fifty_blocks() {
    let contract = account(77);
    let mut retriever = EventRetriever::new(contract, transfer_event_topic(), 1_000, 1_120);
    let mut asked = Vec::new();
    while let Some(filter) = retriever.next_request() {
        asked.push((filter.from_block, filter.to_block));
        assert_eq!(filter.address, contract);
        assert_eq!(filter.topic0, transfer_event_topic());
        retriever.accept_batch(&Vec::new(), 0).unwrap();
    }
    assert_eq!(asked, vec![(1_000, 1_049), (1_050, 1_099), (1_100, 1_120)]);
}

#[test]
fn retrieval_of_one_block_is_one_batch() {
    let mut retriever = EventRetriever::new(account(7), transfer_event_topic(), 5, 5);
    assert_eq!(
        retriever.next_request(),
        Some(LogFilter { address: account(7), topic0: transfer_event_topic(), from_block: 5, to_block: 5 })
    );
    retriever.accept_batch(&vec![log(1, 2, 3, 5)], 60).unwrap();
    assert_eq!(retriever.next_request(), None);
    assert_eq!(retriever.into_events().len(), 1);
}

#[test]
fn retrieval_of_an_empty_range_asks_for_nothing() {
    let retriever = EventRetriever::new(account(7), transfer_event_topic(), 6, 5);
    assert_eq!(retriever.next_request(), None);
    assert!(retriever.into_events().is_empty());
}

#[test]
fn retrieval_ends_at_the_last_block_there_is() {
    let mut retriever = EventRetriever::new(account(7), transfer_event_topic(), u64::MAX - 60, u64::MAX);
    let mut asked = Vec::new();
    while let Some(filter) = retriever.next_request() {
        asked.push((filter.from_block, filter.to_block));
        retriever.accept_batch(&Vec::new(), 0).unwrap();
    }
    assert_eq!(asked, vec![(u64::MAX - 60, u64::MAX - 11), (u64::MAX - 10, u64::MAX)]);
}

#[test]
fn retrieval_appends_batches_in_block_order() {
    let mut retriever = EventRetriever::new(account(7), transfer_event_topic(), 0, 99);
    retriever.accept_batch(&vec![log(1, 2, 10, 3), log(1, 2, 11, 49)], 5_000).unwrap();
    retriever.accept_batch(&vec![log(3, 4, 12, 50)], 5_700).unwrap();
    assert_eq!(retriever.next_request(), None);
    let events = retriever.into_events();
    assert_eq!(events.len(), 3);
    assert_eq!(events[0].timestamp, 5_036);
    assert_eq!(events[1].timestamp, 5_588);
    assert_eq!(events[2].timestamp, 5_700);
    assert_eq!(events[2].value, Amount::from_u64(12));
}

#[test]
fn a_failed_batch_leaves_the_retrieval_as_it_was() {
    let mut retriever = EventRetriever::new(account(7), transfer_event_topic(), 0, 99);
    retriever.accept_batch(&vec![log(1, 2, 10, 3)], 5_000).unwrap();
    let before = retriever.clone();
    let mut broken = log(3, 4, 20, 60);
    broken.block_number = None;
    assert_eq!(
        retriever.accept_batch(&vec![log(1, 2, 10, 55), broken], 5_700),
        Err(RetrievalError::MissingBlockNumber)
    );
    assert_eq!(retriever, before);
}

#[test]
fn a_finished_retrieval_takes_in_nothing() {
    let mut retriever = EventRetriever::new(account(7), transfer_event_topic(), 0, 9);
    retriever.accept_batch(&vec![log(1, 2, 10, 3)], 5_000).unwrap();
    let before = retriever.clone();
    assert_eq!(retriever.accept_batch(&vec![log(1, 2, 10, 3)], 5_000), Ok(()));
    assert_eq!(retriever, before);
}

#[test]
fn malformed_entries_stay_out_of_all_aggregates() {
    let mut retriever = EventRetriever::new(account(7), transfer_event_topic(), 0, 49);
    let logs = vec![log(1, 9, 1_000_000, 0), malformed(10), log(2, 9, 2_000_000, 20), malformed(30)];
    retriever.accept_batch(&logs, 0).unwrap();
    let stats = process_transfer_events(retriever.into_events());
    assert_eq!(stats.total_volume, "3.000000");
    assert_eq!(stats.volume_chart.len(), 1);
    assert_eq!(stats.volume_chart[0].volume, "3.000000");
    assert_eq!(stats.top_senders.len(), 2);
    assert_eq!(stats.top_senders[0].volume, "2.000000");
    assert_eq!(stats.top_senders[1].volume, "1.000000");
}
