use transfer_analytics::address::Address;
use transfer_analytics::amount::Amount;
use transfer_analytics::senders::{calculate_top_senders, rank_senders};
use transfer_analytics::totals::checked_total_volume;
use transfer_analytics::types::{SenderData, SenderEntry, Share, TransferEvent};

fn account(tag: u8) -> Address {
    let mut bytes = [0u8; 20];
    bytes[19] = tag;
    Address { bytes }
}

fn transfer(from: u8, value: u64) -> TransferEvent {
    TransferEvent {
        from: account(from),
        to: account(200),
        value: Amount::from_u64(value),
        block_number: 1,
        timestamp: 12,
    }
}

fn entry(from: u8, volume: u64) -> SenderEntry {
    SenderEntry { address: account(from), volume: Amount::from_u64(volume) }
}

fn percent(share: &Share) -> f64 {
    let part = ethers::types::U256(share.part.limbs).as_u128() as f64;
    let whole = ethers::types::U256(share.whole.limbs).as_u128() as f64;
    part / whole * 100.0
}

#[test]
fn single_sender_has_everything() {
    let events = [transfer(7, 600_000), transfer(7, 400_000)];
    let data = calculate_top_senders(&events);
    assert_eq!(
        data,
        vec![SenderData {
            address: "0x0000000000000000000000000000000000000007".to_string(),
            volume: "1.000000".to_string(),
            percentage: Share { part: Amount::from_u64(1_000_000), whole: Amount::from_u64(1_000_000) },
        }]
    );
    assert_eq!(percent(&data[0].percentage), 100.0);
}

#[test]
fn single_sender_of_one_unit_is_taken() {
    let ranking = rank_senders(&[transfer(7, 1)]);
    assert_eq!(ranking.top, vec![entry(7, 1)]);
    assert!(ranking.others.is_zero());
}

#[test]
fn fifty_forty_ten_leaves_ten_to_others() {
    let events = [transfer(3, 10), transfer(1, 50), transfer(2, 40)];
    let ranking = rank_senders(&events);
    assert_eq!(ranking.top, vec![entry(1, 50), entry(2, 40)]);
    assert_eq!(ranking.others, Amount::from_u64(10));
    assert_eq!(ranking.total, Amount::from_u64(100));
    let data = calculate_top_senders(&events);
    assert_eq!(data.len(), 3);
    assert_eq!(data[2].address, "Others");
    assert_eq!(data[2].volume, "0.000010");
    assert_eq!(percent(&data[2].percentage), 10.0);
    assert_eq!(percent(&data[0].percentage), 50.0);
    assert_eq!(percent(&data[1].percentage), 40.0);
}

#[test]
fn the_sender_who_crosses_the_mark_is_taken_whole() {
    let events = [transfer(1, 89), transfer(2, 6), transfer(3, 5)];
    let ranking = rank_senders(&events);
    assert_eq!(ranking.top, vec![entry(1, 89), entry(2, 6)]);
    assert_eq!(ranking.others, Amount::from_u64(5));
}

#[test]
fn no_events_give_no_senders() {
    assert_eq!(calculate_top_senders(&[]), Vec::<SenderData>::new());
    let ranking = rank_senders(&[]);
    assert!(ranking.top.is_empty());
    assert!(ranking.others.is_zero());
    assert!(ranking.total.is_zero());
}

#[test]
fn zero_total_gives_no_senders() {
    assert_eq!(calculate_top_senders(&[transfer(1, 0), transfer(2, 0)]), Vec::<SenderData>::new());
}

#[test]
fn equal_volumes_stand_in_address_order() {
    let events = [transfer(9, 25), transfer(4, 25), transfer(6, 25), transfer(2, 25)];
    let ranking = rank_senders(&events);
    assert_eq!(ranking.top, vec![entry(2, 25), entry(4, 25), entry(6, 25), entry(9, 25)]);
    assert!(ranking.others.is_zero());
    let mut reversed = events;
    reversed.reverse();
    assert_eq!(rank_senders(&reversed), ranking);
}

#[test]
fn volumes_of_one_sender_add_up_before_ranking() {
    let events = [transfer(1, 30), transfer(2, 40), transfer(1, 30)];
    let ranking = rank_senders(&events);
    assert_eq!(ranking.top, vec![entry(1, 60), entry(2, 40)]);
}

#[test]
fn shares_add_up_to_the_total() {
    let events = [transfer(1, 700), transfer(2, 150), transfer(3, 60), transfer(4, 50), transfer(5, 40)];
    let data = calculate_top_senders(&events);
    let mut parts = Amount::zero();
    let mut percentages = 0.0;
    for slice in &data {
        assert_eq!(slice.percentage.whole, Amount::from_u64(1000));
        parts = parts.checked_add(&slice.percentage.part).unwrap();
        percentages += percent(&slice.percentage);
    }
    assert_eq!(parts, Amount::from_u64(1000));
    assert!((percentages - 100.0).abs() < 1e-6);
    assert_eq!(data.last().unwrap().address, "Others");
    assert_eq!(data.len(), 4);
}

#[test]
fn a_silent_sender_left_out_makes_no_others_slice() {
    let events = [transfer(1, 100), transfer(2, 0)];
    let ranking = rank_senders(&events);
    assert_eq!(ranking.top, vec![entry(1, 100)]);
    assert!(ranking.others.is_zero());
    assert_eq!(calculate_top_senders(&events).len(), 1);
}

#[test]
fn checked_total_tells_when_the_sum_does_not_fit() {
    let huge = TransferEvent {
        from: account(1),
        to: account(2),
        value: Amount { limbs: [u64::MAX; 4] },
        block_number: 1,
        timestamp: 1,
    };
    assert_eq!(checked_total_volume(&[huge]), Some(Amount { limbs: [u64::MAX; 4] }));
    assert_eq!(checked_total_volume(&[huge, transfer(1, 1)]), None);
    assert_eq!(checked_total_volume(&[]), Some(Amount::zero()));
}
