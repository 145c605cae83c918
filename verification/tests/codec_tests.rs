use ethers::types::U256;
use transfer_analytics::amount::Amount;
use transfer_analytics::codec::{format_amount, format_usdt_amount};

/// Reads a rendered amount back: whole units and fraction, six decimals.
fn read_back(text: &str) -> U256 {
    let point = text.find('.').unwrap();
    let whole = U256::from_dec_str(&text[..point]).unwrap();
    let fraction = &text[point + 1..];
    assert_eq!(fraction.len(), 6);
    whole * U256::from(1_000_000u64) + U256::from_dec_str(fraction).unwrap()
}

#[test]
fn formats_one_token() {
    assert_eq!(format_usdt_amount(&Amount::from_u64(1_000_000)), "1.000000");
}

#[test]
fn formats_zero() {
    assert_eq!(format_usdt_amount(&Amount::from_u64(0)), "0.000000");
}

#[test]
fn formats_smallest_unit() {
    assert_eq!(format_usdt_amount(&Amount::from_u64(1)), "0.000001");
}

#[test]
fn formats_without_rounding() {
    assert_eq!(format_usdt_amount(&Amount::from_u64(1_999_999)), "1.999999");
    assert_eq!(format_usdt_amount(&Amount::from_u64(123_456_789_012)), "123456.789012");
}

#[test]
fn formats_beyond_sixty_three_bits() {
    let amount = Amount::from_u128(18_446_744_073_709_551_616_000_001);
    assert_eq!(format_usdt_amount(&amount), "18446744073709551616.000001");
}

#[test]
fn formats_the_largest_amount() {
    let amount = Amount { limbs: [u64::MAX; 4] };
    assert_eq!(
        format_usdt_amount(&amount),
        "115792089237316195423570985008687907853269984665640564039457584007913129.639935"
    );
}

#[test]
fn formats_with_other_decimals() {
    assert_eq!(format_amount(&Amount::from_u64(12345), 2), "123.45");
    assert_eq!(format_amount(&Amount::from_u64(12345), 0), "12345.0");
    assert_eq!(format_amount(&Amount::from_u64(5), 18), "0.000000000000000005");
}

#[test]
fn formats_with_more_decimals_than_digits_fit() {
    let text = format_amount(&Amount::from_u64(5), 80);
    assert_eq!(text.len(), 82);
    assert!(text.starts_with("0.0000"));
    assert!(text.ends_with("05"));
    let largest = format_amount(&Amount { limbs: [u64::MAX; 4] }, 78);
    assert_eq!(
        largest,
        "0.115792089237316195423570985008687907853269984665640564039457584007913129639935"
    );
}

#[test]
fn format_round_trips_for_named_amounts() {
    let amounts = [
        Amount::from_u64(0),
        Amount::from_u64(1),
        Amount::from_u64(1_000_000),
        Amount::from_u128(1u128 << 63),
        Amount::from_u128((1u128 << 63) + 123_456_789),
        Amount::from_u128(u128::MAX),
        Amount { limbs: [u64::MAX; 4] },
    ];
    for amount in amounts {
        assert_eq!(read_back(&format_usdt_amount(&amount)), U256(amount.limbs));
    }
}
