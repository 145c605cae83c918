//! Fixed-point rendering of token amounts.

use crate::amount::{decimal_digits, digit_char, lemma_pow10_increases, pow10, Amount};
use vstd::arithmetic::div_mod::lemma_fundamental_div_mod;
use vstd::prelude::*;
use vstd::string::StringExecFns;
use vstd::string::StrSliceExecFns;

verus! {

/// The number of decimal places of the tracked token.
pub const USDT_DECIMALS: u32 = 6;

/// `count` zero digits.
pub open spec fn zeros(count: nat) -> Seq<char> {
    Seq::new(count, |i: int| '0')
}

/// `digits` with zeros in front until it is `width` long; a longer numeral is
/// left as it is.
pub open spec fn zero_padded(digits: Seq<char>, width: nat) -> Seq<char> {
    if digits.len() >= width {
        digits
    } else {
        zeros((width - digits.len()) as nat) + digits
    }
}

/// The whole units, a point, and the fraction padded to `decimals` digits.
pub open spec fn amount_text(value: nat, decimals: nat) -> Seq<char> {
    decimal_digits(value / pow10(decimals)) + seq!['.'] + zero_padded(
        decimal_digits(value % pow10(decimals)),
        decimals,
    )
}

/// Renders `amount`, counted in units of 10^-`decimals`, exactly.
pub fn format_amount(amount: &Amount, decimals: u32) -> (text: String)
    ensures
        text@ == amount_text(amount@, decimals as nat),
{
    let (whole, fraction) = match Amount::power_of_ten(decimals) {
        Some(unit) => {
            proof {
                lemma_pow10_increases(0, decimals as nat);
            }
            match amount.checked_div_rem(&unit) {
                Some(parts) => parts,
                None => (Amount::zero(), *amount),
            }
        },
        None => {
            proof {
                let unit = pow10(decimals as nat) as int;
                let value = amount@ as int;
                assert(value < unit);
                assert(value / unit == 0 && value % unit == value) by (nonlinear_arith)
                    requires
                        0 <= value < unit,
                ;
            }
            (Amount::zero(), *amount)
        },
    };
    let mut text = whole.to_decimal_string();
    let digits = fraction.to_decimal_string();
    let length = digits.as_str().unicode_len();
    proof {
        reveal_strlit(".");
        reveal_strlit("0");
    }
    text.append(".");
    let ghost head = text@;
    let mut written: usize = length;
    while written < decimals as usize
        invariant
            length <= written,
            written <= decimals || written == length,
            text@ == head + zeros((written - length) as nat),
            "0"@ == seq!['0'],
        decreases decimals - written,
    {
        text.append("0");
        written += 1;
        assert(text@ =~= head + zeros((written - length) as nat));
    }
    text.append(digits.as_str());
    assert(text@ =~= amount_text(amount@, decimals as nat));
    text
}

/// Renders an amount of the tracked token, which has six decimal places:
/// 1,000,000 units are written `1.000000`.
pub fn format_usdt_amount(amount: &Amount) -> (text: String)
    ensures
        text@ == amount_text(amount@, USDT_DECIMALS as nat),
{
    format_amount(amount, USDT_DECIMALS)
}

/// The digit that a character stands for, if it is a decimal digit.
pub open spec fn digit_of(c: char) -> Option<nat> {
    if c == '0' {
        Some(0)
    } else if c == '1' {
        Some(1)
    } else if c == '2' {
        Some(2)
    } else if c == '3' {
        Some(3)
    } else if c == '4' {
        Some(4)
    } else if c == '5' {
        Some(5)
    } else if c == '6' {
        Some(6)
    } else if c == '7' {
        Some(7)
    } else if c == '8' {
        Some(8)
    } else if c == '9' {
        Some(9)
    } else {
        None
    }
}

/// The number that a string of decimal digits denotes; the empty string
/// denotes zero, and a string with another character denotes nothing.
pub open spec fn digits_value(digits: Seq<char>) -> Option<nat>
    decreases digits.len(),
{
    if digits.len() == 0 {
        Some(0)
    } else {
        match (digits_value(digits.drop_last()), digit_of(digits.last())) {
            (Some(value), Some(digit)) => Some(value * 10 + digit),
            _ => None,
        }
    }
}

/// The number that a numeral denotes: a string of one or more digits.
pub open spec fn numeral_value(digits: Seq<char>) -> Option<nat> {
    if digits.len() == 0 {
        None
    } else {
        digits_value(digits)
    }
}

/// Where the first point of a text stands; its length if it has none.
pub open spec fn point_index(text: Seq<char>) -> int
    decreases text.len(),
{
    if text.len() == 0 {
        0
    } else if text[0] == '.' {
        0
    } else {
        1 + point_index(text.skip(1))
    }
}

/// The amount that a text denotes in units of 10^-`decimals`: a numeral for
/// the whole units, a point, and a numeral of exactly `decimals` digits for
/// the fraction.
pub open spec fn parsed_amount(text: Seq<char>, decimals: nat) -> Option<nat> {
    let point = point_index(text);
    if point >= text.len() {
        None
    } else if text.skip(point + 1).len() != decimals {
        None
    } else {
        match (numeral_value(text.take(point)), numeral_value(text.skip(point + 1))) {
            (Some(whole), Some(fraction)) => Some(whole * pow10(decimals) + fraction),
            _ => None,
        }
    }
}

/// The decimal numeral of a number is not empty, has no point, and denotes
/// the number.
pub proof fn lemma_decimal_digits(n: nat)
    ensures
        decimal_digits(n).len() >= 1,
        digits_value(decimal_digits(n)) == Some(n),
        forall|i: int| 0 <= i < decimal_digits(n).len() ==> decimal_digits(n)[i] != '.',
    decreases n,
{
    let digits = decimal_digits(n);
    if n < 10 {
        assert(digits =~= seq![digit_char(n)]);
        assert(digits.drop_last() =~= Seq::<char>::empty());
        assert(digit_of(digit_char(n)) == Some(n));
        assert(digits_value(digits.drop_last()) == Some(0nat));
    } else {
        lemma_decimal_digits(n / 10);
        assert(digits.drop_last() =~= decimal_digits(n / 10));
        assert(digits.last() == digit_char(n % 10));
        assert(digit_of(digit_char(n % 10)) == Some(n % 10));
    }
}

/// A number below 10^`width` has a numeral of at most `width` digits.
pub proof fn lemma_decimal_digits_fit(n: nat, width: nat)
    requires
        width >= 1,
        n < pow10(width),
    ensures
        decimal_digits(n).len() <= width,
    decreases width,
{
    if n >= 10 {
        assert(pow10(1) == 10) by {
            reveal_with_fuel(pow10, 2);
        }
        assert(width >= 2);
        lemma_decimal_digits_fit(n / 10, (width - 1) as nat);
    }
}

/// Zeros in front of a string of digits do not change what it denotes.
pub proof fn lemma_zeros_in_front(count: nat, digits: Seq<char>)
    ensures
        digits_value(zeros(count) + digits) == digits_value(digits),
    decreases digits.len(), count,
{
    let padded = zeros(count) + digits;
    if digits.len() > 0 {
        assert(padded.drop_last() =~= zeros(count) + digits.drop_last());
        assert(padded.last() == digits.last());
        lemma_zeros_in_front(count, digits.drop_last());
    } else if count > 0 {
        assert(padded.drop_last() =~= zeros((count - 1) as nat) + digits);
        assert(padded.last() == '0');
        lemma_zeros_in_front((count - 1) as nat, digits);
    } else {
        assert(padded =~= digits);
    }
}

/// The first point of a text stands right after a beginning without points.
pub proof fn lemma_point_index(head: Seq<char>, tail: Seq<char>)
    requires
        forall|i: int| 0 <= i < head.len() ==> head[i] != '.',
    ensures
        point_index(head + seq!['.'] + tail) == head.len(),
    decreases head.len(),
{
    let text = head + seq!['.'] + tail;
    if head.len() > 0 {
        assert(text[0] == head[0]);
        assert(text.skip(1) =~= head.skip(1) + seq!['.'] + tail);
        lemma_point_index(head.skip(1), tail);
    } else {
        assert(text[0] == '.');
    }
}

/// Reading a rendered amount back gives the amount: rendering loses nothing.
pub proof fn lemma_format_round_trip(value: nat, decimals: nat)
    requires
        decimals >= 1,
    ensures
        parsed_amount(amount_text(value, decimals), decimals) == Some(value),
{
    let unit = pow10(decimals);
    lemma_pow10_increases(0, decimals);
    let whole = value / unit;
    let fraction = value % unit;
    let head = decimal_digits(whole);
    let digits = decimal_digits(fraction);
    let tail = zero_padded(digits, decimals);
    let text = amount_text(value, decimals);
    lemma_decimal_digits(whole);
    lemma_decimal_digits(fraction);
    lemma_decimal_digits_fit(fraction, decimals);
    lemma_point_index(head, tail);
    assert(text =~= head + seq!['.'] + tail);
    assert(text.take(head.len() as int) =~= head);
    assert(text.skip(head.len() as int + 1) =~= tail);
    if digits.len() < decimals {
        lemma_zeros_in_front((decimals - digits.len()) as nat, digits);
    }
    assert(tail.len() == decimals);
    assert(numeral_value(tail) == Some(fraction));
    assert(numeral_value(head) == Some(whole));
    lemma_fundamental_div_mod(value as int, unit as int);
    assert(whole * unit + fraction == value) by (nonlinear_arith)
        requires
            value == unit * whole + fraction,
    ;
}

} // verus!
