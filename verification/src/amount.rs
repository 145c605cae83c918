//! Token amounts: 256-bit unsigned integers in the token's smallest unit.
//!
//! An `Amount` holds the four 64-bit words of the number, least significant
//! first, and its view is the natural number they encode. Arithmetic beyond
//! comparison is done by `ethers::types::U256`; the functions that call it
//! state their results over the views, and those statements are taken on
//! trust.

use ethers::types::U256;
use vstd::prelude::*;

verus! {

/// One more than the largest amount: 2^256.
pub open spec fn amount_limit() -> nat {
    0x1_0000_0000_0000_0000_0000_0000_0000_0000_0000_0000_0000_0000_0000_0000_0000_0000nat
}

/// 10 to the power `exponent`.
pub open spec fn pow10(exponent: nat) -> nat
    decreases exponent,
{
    if exponent == 0 {
        1
    } else {
        10 * pow10((exponent - 1) as nat)
    }
}

/// The number that a big-endian byte string encodes.
pub open spec fn be_value(bytes: Seq<u8>) -> nat
    decreases bytes.len(),
{
    if bytes.len() == 0 {
        0
    } else {
        be_value(bytes.drop_last()) * 256 + bytes.last() as nat
    }
}

/// The character of one decimal digit.
pub open spec fn digit_char(digit: nat) -> char {
    seq!['0', '1', '2', '3', '4', '5', '6', '7', '8', '9'][digit as int]
}

/// The decimal numeral of `n`, most significant digit first, without leading
/// zeros; zero is "0".
pub open spec fn decimal_digits(n: nat) -> Seq<char>
    decreases n,
{
    if n < 10 {
        seq![digit_char(n)]
    } else {
        decimal_digits(n / 10).push(digit_char(n % 10))
    }
}

/// A 256-bit unsigned token amount.
#[derive(Clone, Copy, Debug, PartialEq, Eq)]
pub struct Amount {
    /// The 64-bit words of the number, least significant first.
    pub limbs: [u64; 4],
}

impl View for Amount {
    type V = nat;

    open spec fn view(&self) -> nat {
        (self.limbs[0] as nat) + (self.limbs[1] as nat) * 0x1_0000_0000_0000_0000
            + (self.limbs[2] as nat) * 0x1_0000_0000_0000_0000_0000_0000_0000_0000
            + (self.limbs[3] as nat)
            * 0x1_0000_0000_0000_0000_0000_0000_0000_0000_0000_0000_0000_0000
    }
}

/// A larger exponent gives a power of ten at least as large.
pub proof fn lemma_pow10_increases(low: nat, high: nat)
    requires
        low <= high,
    ensures
        0 < pow10(low) <= pow10(high),
    decreases high,
{
    if low < high {
        lemma_pow10_increases(low, (high - 1) as nat);
    } else if low > 0 {
        lemma_pow10_increases((low - 1) as nat, (high - 1) as nat);
    }
}

/// Ten to the 78th is beyond 256 bits.
proof fn lemma_pow10_78()
    ensures
        pow10(78) >= amount_limit(),
{
    assert(pow10(13) == 10_000_000_000_000nat) by {
        reveal_with_fuel(pow10, 14);
    }
    assert(pow10(26) == 100_000_000_000_000_000_000_000_000nat) by {
        lemma_pow10_sum(13, 13);
    }
    assert(pow10(39) == 1_000_000_000_000_000_000_000_000_000_000_000_000_000nat) by {
        lemma_pow10_sum(26, 13);
    }
    assert(pow10(52) == 10_000_000_000_000_000_000_000_000_000_000_000_000_000_000_000_000_000nat) by {
        lemma_pow10_sum(39, 13);
    }
    assert(pow10(65) == 100_000_000_000_000_000_000_000_000_000_000_000_000_000_000_000_000_000_000_000_000_000nat) by {
        lemma_pow10_sum(52, 13);
    }
    assert(pow10(78) == 1_000_000_000_000_000_000_000_000_000_000_000_000_000_000_000_000_000_000_000_000_000_000_000_000_000_000nat) by {
        lemma_pow10_sum(65, 13);
    }
}

/// Powers of ten multiply as their exponents add.
pub proof fn lemma_pow10_sum(a: nat, b: nat)
    ensures
        pow10(a + b) == pow10(a) * pow10(b),
    decreases b,
{
    if b == 0 {
        assert(pow10(a) * 1 == pow10(a));
    } else {
        lemma_pow10_sum(a, (b - 1) as nat);
        assert(pow10(a + b) == 10 * pow10((a + b - 1) as nat));
        assert(pow10(a) * pow10(b) == 10 * (pow10(a) * pow10((b - 1) as nat))) by (nonlinear_arith)
            requires
                pow10(b) == 10 * pow10((b - 1) as nat),
        ;
    }
}

/// The number that the three upper words encode.
spec fn upper_words(a: Amount) -> nat {
    (a.limbs[1] as nat) + (a.limbs[2] as nat) * 0x1_0000_0000_0000_0000 + (a.limbs[3] as nat)
        * 0x1_0000_0000_0000_0000_0000_0000_0000_0000
}

/// The number that the two upper words encode.
spec fn top_words(a: Amount) -> nat {
    (a.limbs[2] as nat) + (a.limbs[3] as nat) * 0x1_0000_0000_0000_0000
}

/// Two amounts with the same value hold the same words.
pub proof fn lemma_amount_words(a: Amount, b: Amount)
    requires
        a@ == b@,
    ensures
        a.limbs@ == b.limbs@,
{
    assert(a@ == a.limbs[0] + upper_words(a) * 0x1_0000_0000_0000_0000);
    assert(b@ == b.limbs[0] + upper_words(b) * 0x1_0000_0000_0000_0000);
    assert(a.limbs[0] == b.limbs[0] && upper_words(a) == upper_words(b)) by {
        lemma_split_word(a.limbs[0], upper_words(a), b.limbs[0], upper_words(b));
    }
    assert(upper_words(a) == a.limbs[1] + top_words(a) * 0x1_0000_0000_0000_0000);
    assert(upper_words(b) == b.limbs[1] + top_words(b) * 0x1_0000_0000_0000_0000);
    assert(a.limbs[1] == b.limbs[1] && top_words(a) == top_words(b)) by {
        lemma_split_word(a.limbs[1], top_words(a), b.limbs[1], top_words(b));
    }
    assert(a.limbs[2] == b.limbs[2] && a.limbs[3] == b.limbs[3]) by {
        lemma_split_word(a.limbs[2], a.limbs[3] as nat, b.limbs[2], b.limbs[3] as nat);
    }
    assert(a.limbs@ =~= b.limbs@);
}

/// A number splits in one way into a low 64-bit word and the rest.
proof fn lemma_split_word(low_a: u64, rest_a: nat, low_b: u64, rest_b: nat)
    requires
        low_a + rest_a * 0x1_0000_0000_0000_0000 == low_b + rest_b * 0x1_0000_0000_0000_0000,
    ensures
        low_a == low_b,
        rest_a == rest_b,
{
    if rest_a < rest_b {
        assert(rest_a + 1 <= rest_b);
    } else if rest_b < rest_a {
        assert(rest_b + 1 <= rest_a);
    }
}

/// `U256::checked_add`: the sum, or `None` where it does not fit in 256 bits.
#[verifier::external_body]
fn u256_checked_add(a: &Amount, b: &Amount) -> (sum: Option<Amount>)
    ensures
        match sum {
            Some(s) => s@ == a@ + b@,
            None => a@ + b@ >= amount_limit(),
        },
{
    match U256(a.limbs).checked_add(U256(b.limbs)) {
        Some(s) => Some(Amount { limbs: s.0 }),
        None => None,
    }
}

/// `U256::checked_sub`: the difference, or `None` where it would be negative.
#[verifier::external_body]
fn u256_checked_sub(a: &Amount, b: &Amount) -> (difference: Option<Amount>)
    ensures
        match difference {
            Some(d) => d@ == a@ - b@,
            None => a@ < b@,
        },
{
    match U256(a.limbs).checked_sub(U256(b.limbs)) {
        Some(d) => Some(Amount { limbs: d.0 }),
        None => None,
    }
}

/// `U256::div_mod`: quotient and remainder of the division by a divisor that
/// is not zero (it panics on zero).
#[verifier::external_body]
fn u256_div_mod(a: &Amount, divisor: &Amount) -> (parts: (Amount, Amount))
    requires
        divisor@ != 0,
    ensures
        parts.0@ == a@ / divisor@,
        parts.1@ == a@ % divisor@,
{
    let (quotient, remainder) = U256(a.limbs).div_mod(U256(divisor.limbs));
    (Amount { limbs: quotient.0 }, Amount { limbs: remainder.0 })
}

/// `U256::exp10`: the power of ten with the given exponent, which must be at
/// most 77 (it panics where the power does not fit in 256 bits).
#[verifier::external_body]
fn u256_exp10(exponent: usize) -> (power: Amount)
    requires
        exponent <= 77,
    ensures
        power@ == pow10(exponent as nat),
{
    Amount { limbs: U256::exp10(exponent).0 }
}

/// `U256::from_big_endian`: the number that at most 32 big-endian bytes
/// encode (it panics on a longer slice).
#[verifier::external_body]
fn u256_from_big_endian(bytes: &[u8]) -> (a: Amount)
    requires
        bytes@.len() <= 32,
    ensures
        a@ == be_value(bytes@),
{
    Amount { limbs: U256::from_big_endian(bytes).0 }
}

/// `Display` of `U256`: the decimal numeral without leading zeros.
#[verifier::external_body]
fn u256_to_decimal(a: &Amount) -> (text: String)
    ensures
        text@ == decimal_digits(a@),
{
    format!("{}", U256(a.limbs))
}

impl Amount {
    /// The amount zero.
    pub fn zero() -> (a: Amount)
        ensures
            a@ == 0,
    {
        Amount { limbs: [0, 0, 0, 0] }
    }

    /// The amount with the given value.
    pub fn from_u64(value: u64) -> (a: Amount)
        ensures
            a@ == value,
    {
        Amount { limbs: [value, 0, 0, 0] }
    }

    /// The amount with the given value.
    pub fn from_u128(value: u128) -> (a: Amount)
        ensures
            a@ == value,
    {
        let low: u64 = (value % 0x1_0000_0000_0000_0000) as u64;
        let high: u64 = (value / 0x1_0000_0000_0000_0000) as u64;
        Amount { limbs: [low, high, 0, 0] }
    }

    /// The amount that `bytes` encode in big-endian order.
    pub fn from_be_bytes(bytes: &[u8]) -> (a: Amount)
        requires
            bytes@.len() <= 32,
        ensures
            a@ == be_value(bytes@),
    {
        u256_from_big_endian(bytes)
    }

    /// Whether the amount is zero.
    pub fn is_zero(&self) -> (zero: bool)
        ensures
            zero == (self@ == 0),
    {
        self.limbs[0] == 0 && self.limbs[1] == 0 && self.limbs[2] == 0 && self.limbs[3] == 0
    }

    /// Whether the two amounts are the same number.
    pub fn equals(&self, other: &Amount) -> (same: bool)
        ensures
            same == (self@ == other@),
            same == (self.limbs@ == other.limbs@),
    {
        let same = self.limbs[0] == other.limbs[0] && self.limbs[1] == other.limbs[1]
            && self.limbs[2] == other.limbs[2] && self.limbs[3] == other.limbs[3];
        proof {
            if same {
                assert(self.limbs@ =~= other.limbs@);
            }
            if self@ == other@ {
                lemma_amount_words(*self, *other);
            }
        }
        same
    }

    /// Whether this amount is strictly smaller than `other`.
    pub fn less_than(&self, other: &Amount) -> (smaller: bool)
        ensures
            smaller == (self@ < other@),
    {
        if self.limbs[3] != other.limbs[3] {
            self.limbs[3] < other.limbs[3]
        } else if self.limbs[2] != other.limbs[2] {
            self.limbs[2] < other.limbs[2]
        } else if self.limbs[1] != other.limbs[1] {
            self.limbs[1] < other.limbs[1]
        } else {
            self.limbs[0] < other.limbs[0]
        }
    }

    /// The sum of the two amounts, or `None` where it is 2^256 or more.
    pub fn checked_add(&self, other: &Amount) -> (sum: Option<Amount>)
        ensures
            match sum {
                Some(s) => s@ == self@ + other@,
                None => self@ + other@ >= amount_limit(),
            },
    {
        u256_checked_add(self, other)
    }

    /// The difference of the two amounts, or `None` where `other` is larger.
    pub fn checked_sub(&self, other: &Amount) -> (difference: Option<Amount>)
        ensures
            match difference {
                Some(d) => d@ == self@ - other@,
                None => self@ < other@,
            },
    {
        u256_checked_sub(self, other)
    }

    /// Quotient and remainder of the division by `divisor`, or `None` where
    /// the divisor is zero.
    pub fn checked_div_rem(&self, divisor: &Amount) -> (parts: Option<(Amount, Amount)>)
        ensures
            divisor@ == 0 <==> parts is None,
            parts matches Some(p) ==> p.0@ == self@ / divisor@ && p.1@ == self@ % divisor@,
    {
        if divisor.is_zero() {
            None
        } else {
            Some(u256_div_mod(self, divisor))
        }
    }

    /// Ten to the power `exponent`, or `None` where that is 2^256 or more.
    pub fn power_of_ten(exponent: u32) -> (power: Option<Amount>)
        ensures
            match power {
                Some(p) => p@ == pow10(exponent as nat),
                None => pow10(exponent as nat) >= amount_limit(),
            },
    {
        if exponent <= 77 {
            Some(u256_exp10(exponent as usize))
        } else {
            proof {
                lemma_pow10_78();
                lemma_pow10_increases(78, exponent as nat);
            }
            None
        }
    }

    /// The decimal numeral of the amount, without leading zeros.
    pub fn to_decimal_string(&self) -> (text: String)
        ensures
            text@ == decimal_digits(self@),
    {
        u256_to_decimal(self)
    }
}

} // verus!
