//! Natural numbers written in decimal: how they are shown and how they are
//! read back.

use vstd::prelude::*;
use vstd::string::*;

verus! {

/// The character that shows a digit.
pub open spec fn digit_char(digit: nat) -> char {
    if digit == 0 {
        '0'
    } else if digit == 1 {
        '1'
    } else if digit == 2 {
        '2'
    } else if digit == 3 {
        '3'
    } else if digit == 4 {
        '4'
    } else if digit == 5 {
        '5'
    } else if digit == 6 {
        '6'
    } else if digit == 7 {
        '7'
    } else if digit == 8 {
        '8'
    } else {
        '9'
    }
}

/// Whether a character is one of `0` to `9`.
pub open spec fn is_digit(c: char) -> bool {
    '0' <= c <= '9'
}

/// The digit that a character shows.
pub open spec fn digit_value(c: char) -> nat {
    (c as nat - '0' as nat) as nat
}

/// A number in decimal, without leading zeros.
pub open spec fn decimal(number: nat) -> Seq<char>
    decreases number,
{
    if number < 10 {
        seq![digit_char(number)]
    } else {
        decimal(number / 10).push(digit_char(number % 10))
    }
}

/// The number that a sequence of digits stands for.
pub open spec fn decimal_value(digits: Seq<char>) -> nat
    decreases digits.len(),
{
    if digits.len() == 0 {
        0
    } else {
        decimal_value(digits.drop_last()) * 10 + digit_value(digits.last())
    }
}

/// Whether a text is made of digits alone, and of at least one.
pub open spec fn all_digits(text: Seq<char>) -> bool {
    text.len() > 0 && forall|i: int| 0 <= i < text.len() ==> is_digit(#[trigger] text[i])
}

/// A text without the `+` that may stand in front of it.
pub open spec fn without_sign(text: Seq<char>) -> Seq<char> {
    if text.len() > 0 && text[0] == '+' {
        text.drop_first()
    } else {
        text
    }
}

/// What a text reads as: digits, with `+` allowed in front of them, stand
/// for their number if it fits in 64 bits. Any other text stands for nothing.
pub open spec fn parsed(text: Seq<char>) -> Option<u64> {
    let digits = without_sign(text);
    if all_digits(digits) && decimal_value(digits) <= u64::MAX {
        Some(decimal_value(digits) as u64)
    } else {
        None
    }
}

/// A digit shows its own value.
pub proof fn lemma_digit_char(digit: nat)
    requires
        digit < 10,
    ensures
        is_digit(digit_char(digit)),
        digit_value(digit_char(digit)) == digit,
        digit_char(digit) != '+',
{
}

/// Leaving out the last digits of a number does not make it larger.
pub proof fn lemma_decimal_value_of_prefix(digits: Seq<char>, kept: int)
    requires
        0 <= kept <= digits.len(),
    ensures
        decimal_value(digits.take(kept)) <= decimal_value(digits),
    decreases digits.len() - kept,
{
    if kept < digits.len() {
        lemma_decimal_value_of_prefix(digits, kept + 1);
        let longer = digits.take(kept + 1);
        assert(longer.drop_last() =~= digits.take(kept));
    } else {
        assert(digits.take(kept) =~= digits);
    }
}

/// A number reads back from its decimal form.
pub proof fn lemma_decimal_reads_back(number: nat)
    ensures
        all_digits(decimal(number)),
        decimal_value(decimal(number)) == number,
        decimal(number)[0] != '+',
    decreases number,
{
    if number < 10 {
        lemma_digit_char(number);
        let text = decimal(number);
        assert(text.drop_last() =~= Seq::<char>::empty());
        assert(decimal_value(text.drop_last()) == 0);
    } else {
        lemma_decimal_reads_back(number / 10);
        lemma_digit_char(number % 10);
        let front = decimal(number / 10);
        let text = front.push(digit_char(number % 10));
        assert(text.drop_last() =~= front);
        assert forall|i: int| 0 <= i < text.len() implies is_digit(#[trigger] text[i]) by {
            if i < front.len() {
                assert(is_digit(front[i]));
            }
        }
    }
}

/// Writing a number and reading the text gives the number again.
pub proof fn lemma_parse_of_decimal(number: u64)
    ensures
        parsed(decimal(number as nat)) == Some(number),
{
    lemma_decimal_reads_back(number as nat);
}

/// The text of one digit.
fn digit_text(digit: u64) -> (text: &'static str)
    requires
        digit < 10,
    ensures
        text@ == seq![digit_char(digit as nat)],
{
    proof {
        reveal_strlit("0");
        reveal_strlit("1");
        reveal_strlit("2");
        reveal_strlit("3");
        reveal_strlit("4");
        reveal_strlit("5");
        reveal_strlit("6");
        reveal_strlit("7");
        reveal_strlit("8");
        reveal_strlit("9");
    }
    let text = if digit == 0 {
        "0"
    } else if digit == 1 {
        "1"
    } else if digit == 2 {
        "2"
    } else if digit == 3 {
        "3"
    } else if digit == 4 {
        "4"
    } else if digit == 5 {
        "5"
    } else if digit == 6 {
        "6"
    } else if digit == 7 {
        "7"
    } else if digit == 8 {
        "8"
    } else {
        "9"
    };
    assert(text@ =~= seq![digit_char(digit as nat)]);
    text
}

/// Writes a number in decimal.
pub fn to_decimal(number: u64) -> (text: String)
    ensures
        text@ == decimal(number as nat),
    decreases number,
{
    if number < 10 {
        String::from_str(digit_text(number))
    } else {
        let mut text = to_decimal(number / 10);
        text.append(digit_text(number % 10));
        text
    }
}

/// Reads a number: digits, with `+` allowed in front of them. Any other
/// text, and a number beyond 64 bits, gives `None`.
pub fn parse_decimal(text: &str) -> (number: Option<u64>)
    ensures
        number == parsed(text@),
{
    let length = text.unicode_len();
    let start: usize = if length > 0 && text.get_char(0) == '+' {
        1
    } else {
        0
    };
    let ghost digits = without_sign(text@);
    if start == length {
        return None;
    }
    let mut value: u64 = 0;
    let mut i: usize = start;
    while i < length
        invariant
            start <= i <= length,
            length == text@.len(),
            digits == without_sign(text@),
            digits.len() == length - start,
            forall|k: int| 0 <= k < digits.len() ==> digits[k] == text@[k + start],
            forall|k: int| 0 <= k < i - start ==> is_digit(#[trigger] digits[k]),
            value == decimal_value(digits.take(i - start)),
        decreases length - i,
    {
        let c = text.get_char(i);
        if !('0' <= c && c <= '9') {
            assert(!is_digit(digits[i - start]));
            return None;
        }
        let digit: u64 = (c as u32 - '0' as u32) as u64;
        proof {
            let longer = digits.take(i - start + 1);
            assert(longer.drop_last() =~= digits.take(i - start));
            assert(longer.last() == c);
            assert(decimal_value(longer) == value * 10 + digit);
            lemma_decimal_value_of_prefix(digits, i - start + 1);
        }
        if value > (u64::MAX - digit) / 10 {
            return None;
        }
        value = value * 10 + digit;
        i += 1;
    }
    proof {
        assert(digits.take(length - start) =~= digits);
    }
    Some(value)
}

} // verus!
