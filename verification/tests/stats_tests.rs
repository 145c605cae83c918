use transfer_analytics::address::Address;
use transfer_analytics::amount::Amount;
use transfer_analytics::stats::{can_process, process_transfer_events};
use transfer_analytics::types::{TransferEvent, VolumeData};

fn account(tag: u8) -> Address {
    let mut bytes = [0u8; 20];
    bytes[19] = tag;
    Address { bytes }
}

fn transfer(from: u8, value: u64, timestamp: u64) -> TransferEvent {
    TransferEvent {
        from: account(from),
        to: account(200),
        value: Amount::from_u64(value),
        block_number: timestamp / 12,
        timestamp,
    }
}

#[test]
fn empty_events_give_empty_stats() {
    let stats = process_transfer_events(Vec::new());
    assert!(stats.volume_chart.is_empty());
    assert!(stats.top_senders.is_empty());
    assert_eq!(stats.total_volume, "0.000000");
}

#[test]
fn stats_hold_both_charts_and_the_total() {
    let events = vec![
        transfer(1, 1_000_000, 0),
        transfer(2, 2_000_000, 900),
        transfer(1, 500_000, 1800),
    ];
    let stats = process_transfer_events(events);
    assert_eq!(
        stats.volume_chart,
        vec![
            VolumeData { timestamp: 0, volume: "3.000000".to_string() },
            VolumeData { timestamp: 1800, volume: "0.500000".to_string() },
        ]
    );
    assert_eq!(stats.total_volume, "3.500000");
    assert_eq!(stats.top_senders.len(), 2);
    assert_eq!(stats.top_senders[0].address, "0x0000000000000000000000000000000000000002");
    assert_eq!(stats.top_senders[0].volume, "2.000000");
    assert_eq!(stats.top_senders[1].address, "0x0000000000000000000000000000000000000001");
    assert_eq!(stats.top_senders[1].volume, "1.500000");
}

#[test]
fn can_process_tells_whether_the_total_fits() {
    let huge = TransferEvent {
        from: account(1),
        to: account(2),
        value: Amount { limbs: [u64::MAX; 4] },
        block_number: 1,
        timestamp: 1,
    };
    assert!(can_process(&vec![huge]));
    assert!(!can_process(&vec![huge, transfer(1, 1, 1)]));
}
