//! Numbers as decimal text.

use vstd::prelude::*;
use vstd::string::*;

verus! {

/// The character of a digit.
pub open spec fn digit(value: nat) -> char {
    (0x30 + value) as char
}

/// Whether a character is a decimal digit.
pub open spec fn is_digit(c: char) -> bool {
    0x30 <= c as int <= 0x39
}

/// A number in decimal, without leading zeros.
pub open spec fn decimal(value: nat) -> Seq<char>
    decreases value,
{
    if value < 10 {
        seq![digit(value)]
    } else {
        decimal(value / 10).push(digit(value % 10))
    }
}

/// Whether there are only digits.
pub open spec fn all_digits(text: Seq<char>) -> bool {
    forall|i: int| 0 <= i < text.len() ==> is_digit(#[trigger] text[i])
}

/// The number that digits spell.
pub open spec fn decimal_value(digits: Seq<char>) -> nat
    decreases digits.len(),
{
    if digits.len() == 0 {
        0
    } else {
        decimal_value(digits.drop_last()) * 10 + (digits.last() as int - 0x30) as nat
    }
}

/// The number that a text spells: digits, at least one, after a plus sign or not,
/// that fit.
pub open spec fn number_in(text: Seq<char>) -> Option<u64> {
    let digits = if text.len() > 0 && text[0] == '+' {
        text.skip(1)
    } else {
        text
    };
    if digits.len() > 0 && all_digits(digits) && decimal_value(digits) <= u64::MAX {
        Some(decimal_value(digits) as u64)
    } else {
        None
    }
}

/// Reading gives back every number that was written.
pub proof fn written_number_is_read(value: u64)
    ensures
        number_in(decimal(value as nat)) == Some(value),
{
    decimal_is_digits(value as nat);
    let text = decimal(value as nat);
    assert(is_digit(text[0]));
}

/// A number is written with digits that spell it.
pub proof fn decimal_is_digits(value: nat)
    ensures
        decimal(value).len() > 0,
        all_digits(decimal(value)),
        decimal_value(decimal(value)) == value,
    decreases value,
{
    reveal_with_fuel(decimal_value, 2);
    if value >= 10 {
        decimal_is_digits(value / 10);
        assert(decimal(value).drop_last() =~= decimal(value / 10));
    } else {
        assert(decimal(value).drop_last() =~= Seq::<char>::empty());
    }
}

proof fn longer_is_not_less(digits: Seq<char>, n: int)
    requires
        0 <= n <= digits.len(),
        all_digits(digits),
    ensures
        decimal_value(digits.take(n)) <= decimal_value(digits),
    decreases digits.len(),
{
    if n < digits.len() {
        assert(digits.drop_last().take(n) =~= digits.take(n));
        longer_is_not_less(digits.drop_last(), n);
    } else {
        assert(digits.take(n) =~= digits);
    }
}

/// The text of one digit.
fn digit_text(value: u64) -> (text: &'static str)
    requires
        value < 10,
    ensures
        text@ == seq![digit(value as nat)],
{
    proof {
        reveal_strlit("0");
        reveal_strlit("1");
        reveal_strlit("2");
        reveal_strlit("3");
        reveal_strlit("4");
        reveal_strlit("5");
        reveal_strlit("6");
        reveal_strlit("7");
        reveal_strlit("8");
        reveal_strlit("9");
    }
    let text: &'static str = match value {
        0 => "0",
        1 => "1",
        2 => "2",
        3 => "3",
        4 => "4",
        5 => "5",
        6 => "6",
        7 => "7",
        8 => "8",
        _ => "9",
    };
    assert(text@ =~= seq![digit(value as nat)]);
    text
}

/// Writes a number in decimal.
pub fn write_decimal(value: u64) -> (text: String)
    ensures
        text@ == decimal(value as nat),
    decreases value,
{
    if value < 10 {
        let mut text = String::new();
        text.append(digit_text(value));
        assert(text@ =~= decimal(value as nat));
        text
    } else {
        let mut text = write_decimal(value / 10);
        text.append(digit_text(value % 10));
        assert(text@ =~= decimal(value as nat));
        text
    }
}

/// Reads a number in decimal from the characters of `text` from `start` up to
/// `end`.
pub fn read_decimal(text: &str, start: usize, end: usize) -> (number: Option<u64>)
    requires
        start <= end <= text@.len(),
    ensures
        number == number_in(text@.subrange(start as int, end as int)),
{
    let ghost part = text@.subrange(start as int, end as int);
    let mut first: usize = start;
    if start < end && text.get_char(start) == '+' {
        first = start + 1;
    }
    let ghost digits = text@.subrange(first as int, end as int);
    assert(digits =~= if part.len() > 0 && part[0] == '+' {
        part.skip(1)
    } else {
        part
    });
    if first == end {
        return None;
    }
    let mut value: u64 = 0;
    let mut i: usize = first;
    assert(digits.take(0) =~= Seq::<char>::empty());
    while i < end
        invariant
            start <= first <= i <= end <= text@.len(),
            first < end,
            part == text@.subrange(start as int, end as int),
            digits == text@.subrange(first as int, end as int),
            digits == if part.len() > 0 && part[0] == '+' {
                part.skip(1)
            } else {
                part
            },
            forall|k: int| 0 <= k < i - first ==> is_digit(#[trigger] digits[k]),
            value == decimal_value(digits.take(i - first)),
        decreases end - i,
    {
        let c = text.get_char(i);
        assert(c == digits[i - first]);
        if !('0' <= c && c <= '9') {
            return None;
        }
        let low: u64 = (c as u32 - 0x30) as u64;
        assert(digits.take(i + 1 - first).drop_last() =~= digits.take(i - first));
        if value > (u64::MAX - low) / 10 {
            proof {
                if all_digits(digits) {
                    longer_is_not_less(digits, i + 1 - first);
                }
            }
            return None;
        }
        value = value * 10 + low;
        i = i + 1;
    }
    assert(digits.take(end - first) =~= digits);
    Some(value)
}

} // verus!
