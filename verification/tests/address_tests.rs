use transfer_analytics::address::{transfer_event_topic, Address, Topic};
use transfer_analytics::amount::Amount;

fn sample_address() -> Address {
    let mut bytes = [0u8; 20];
    for (i, byte) in bytes.iter_mut().enumerate() {
        *byte = (i as u8) * 13 + 1;
    }
    Address { bytes }
}

#[test]
fn address_text_is_lower_case_hex() {
    let mut bytes = [0u8; 20];
    bytes[0] = 0xda;
    bytes[1] = 0xC1;
    bytes[19] = 0x07;
    assert_eq!(Address { bytes }.to_text(), "0xdac1000000000000000000000000000000000007");
    assert_eq!(
        Address { bytes: [0xff; 20] }.to_text(),
        "0xffffffffffffffffffffffffffffffffffffffff"
    );
}

#[test]
fn address_parses_with_and_without_prefix() {
    let text = "0xdAC17F958D2ee523a2206206994597C13D831ec7";
    let parsed = Address::parse(text).unwrap();
    assert_eq!(parsed.to_text(), "0xdac17f958d2ee523a2206206994597c13d831ec7");
    assert_eq!(Address::parse(&text[2..]), Some(parsed));
}

#[test]
fn address_parse_rejects_what_is_no_address() {
    assert_eq!(Address::parse(""), None);
    assert_eq!(Address::parse("0x1234"), None);
    assert_eq!(Address::parse("0xzzc17f958d2ee523a2206206994597c13d831ec7"), None);
    assert_eq!(Address::parse("0xdac17f958d2ee523a2206206994597c13d831ec7ff"), None);
}

#[test]
fn address_from_topic_takes_the_last_twenty_bytes() {
    let mut bytes = [0u8; 32];
    for (i, byte) in bytes.iter_mut().enumerate() {
        *byte = i as u8;
    }
    let address = Address::from_topic(&Topic { bytes });
    let mut expected = [0u8; 20];
    for (i, byte) in expected.iter_mut().enumerate() {
        *byte = (i + 12) as u8;
    }
    assert_eq!(address.bytes, expected);
}

#[test]
fn address_equals_compares_all_bytes() {
    let a = sample_address();
    let mut b = sample_address();
    assert!(a.equals(&b));
    b.bytes[19] ^= 1;
    assert!(!a.equals(&b));
    b.bytes[19] ^= 1;
    b.bytes[0] ^= 0x80;
    assert!(!a.equals(&b));
}

#[test]
fn address_number_is_big_endian() {
    let mut bytes = [0u8; 20];
    bytes[19] = 2;
    bytes[18] = 1;
    assert_eq!(Address { bytes }.to_number(), Amount::from_u64(258));
    let mut high = [0u8; 20];
    high[0] = 1;
    assert_eq!(Address { bytes: high }.to_number().limbs, [0, 0, 1u64 << 24, 0]);
}

#[test]
fn transfer_topic_is_the_signature_digest() {
    let expected: [u8; 32] = [
        0xdd, 0xf2, 0x52, 0xad, 0x1b, 0xe2, 0xc8, 0x9b, 0x69, 0xc2, 0xb0, 0x68, 0xfc, 0x37, 0x8d,
        0xaa, 0x95, 0x2b, 0xa7, 0xf1, 0x63, 0xc4, 0xa1, 0x16, 0x28, 0xf5, 0x5a, 0x4d, 0xf5, 0x23,
        0xb3, 0xef,
    ];
    assert_eq!(transfer_event_topic().bytes, expected);
}
