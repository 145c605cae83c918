use transfer_analytics::address::Address;
use transfer_analytics::amount::Amount;
use transfer_analytics::types::{TransferEvent, VolumeBucket, VolumeData};
use transfer_analytics::volume::{aggregate_volume_by_time, bucket_of, bucket_volumes};

fn account(tag: u8) -> Address {
    let mut bytes = [0u8; 20];
    bytes[19] = tag;
    Address { bytes }
}

fn transfer(from: u8, value: u64, timestamp: u64) -> TransferEvent {
    TransferEvent {
        from: account(from),
        to: account(200),
        value: Amount::from_u64(value),
        block_number: timestamp / 12,
        timestamp,
    }
}

fn point(timestamp: u64, volume: &str) -> VolumeData {
    VolumeData { timestamp, volume: volume.to_string() }
}

#[test]
fn bucket_of_rounds_down_to_half_hours() {
    assert_eq!(bucket_of(0), 0);
    assert_eq!(bucket_of(1799), 0);
    assert_eq!(bucket_of(1800), 1800);
    assert_eq!(bucket_of(1_700_000_000), 1_699_999_200);
    assert_eq!(bucket_of(u64::MAX), u64::MAX - u64::MAX % 1800);
}

#[test]
fn three_events_fall_into_two_buckets() {
    let events = [transfer(1, 1_000_000, 0), transfer(2, 2_000_000, 900), transfer(1, 500_000, 1800)];
    assert_eq!(
        aggregate_volume_by_time(&events),
        vec![point(0, "3.000000"), point(1800, "0.500000")]
    );
}

#[test]
fn empty_events_give_an_empty_chart() {
    assert_eq!(aggregate_volume_by_time(&[]), Vec::<VolumeData>::new());
    assert_eq!(bucket_volumes(&[]), Vec::<VolumeBucket>::new());
}

#[test]
fn chart_is_sparse_and_ascending_whatever_the_order() {
    let events = [
        transfer(1, 5, 7200),
        transfer(1, 7, 100),
        transfer(2, 11, 7300),
        transfer(3, 13, 3_600_000),
        transfer(3, 17, 1799),
    ];
    let chart = bucket_volumes(&events);
    assert_eq!(
        chart,
        vec![
            VolumeBucket { bucket_start: 0, volume: Amount::from_u64(24) },
            VolumeBucket { bucket_start: 7200, volume: Amount::from_u64(16) },
            VolumeBucket { bucket_start: 3_600_000, volume: Amount::from_u64(13) },
        ]
    );
    let mut reversed = events;
    reversed.reverse();
    assert_eq!(bucket_volumes(&reversed), chart);
}

#[test]
fn bucket_volumes_sum_to_the_total() {
    let events = [
        transfer(1, u64::MAX, 10),
        transfer(2, u64::MAX, 5000),
        transfer(3, 9, 10_000),
        transfer(1, 1, 20),
    ];
    let mut sum = Amount::zero();
    for bucket in bucket_volumes(&events) {
        assert_eq!(bucket.bucket_start % 1800, 0);
        sum = sum.checked_add(&bucket.volume).unwrap();
    }
    assert_eq!(sum, Amount::from_u128(2 * (u64::MAX as u128) + 10));
}

#[test]
fn a_zero_value_event_still_makes_its_bucket() {
    let events = [transfer(1, 0, 4000)];
    assert_eq!(aggregate_volume_by_time(&events), vec![point(3600, "0.000000")]);
}
