//! Decimal numerals: reading a `u32` from text and writing one out.

use vstd::prelude::*;
use vstd::std_specs::iter::IteratorSpec;

verus! {

/// The decimal digits, in their order.
pub const DIGITS: &'static str = "0123456789";

/// Why a text is not the numeral of a `u32`.
#[derive(Clone, Copy, Debug, PartialEq, Eq, Structural)]
pub enum NumberFault {
    /// The text is empty.
    Empty,
    /// The text holds something other than decimal digits after an optional
    /// leading `+`, or nothing but the sign.
    InvalidDigit,
    /// The digits stand for a number above `u32::MAX`.
    TooLarge,
}

/// Whether `c` is one of the decimal digits `0` to `9`.
pub open spec fn is_digit(c: char) -> bool {
    '0' <= c <= '9'
}

/// The number that the digit `c` stands for.
pub open spec fn digit_value(c: char) -> nat {
    (c as nat - '0' as nat) as nat
}

/// The number that a sequence of decimal digits stands for; the empty
/// sequence stands for zero.
pub open spec fn digits_value(digits: Seq<char>) -> nat
    decreases digits.len(),
{
    if digits.len() == 0 {
        0
    } else {
        10 * digits_value(digits.drop_last()) + digit_value(digits.last())
    }
}

/// The length of the longest prefix of `text` that holds digits only.
pub open spec fn digit_run(text: Seq<char>) -> nat
    decreases text.len(),
{
    if text.len() > 0 && is_digit(text[0]) {
        1 + digit_run(text.skip(1))
    } else {
        0
    }
}

/// The text without its leading `+`, if it has one.
pub open spec fn unsigned_part(text: Seq<char>) -> Seq<char> {
    if text.len() > 0 && text[0] == '+' {
        text.skip(1)
    } else {
        text
    }
}

/// What `text` reads as: a number, where it is an optional `+` followed by
/// one digit or more whose value fits a `u32`, and else the fault. The text
/// is read from the left, so digits that overflow before any other character
/// is met are reported as too large.
pub open spec fn parsed_number(text: Seq<char>) -> Result<u32, NumberFault> {
    let body = unsigned_part(text);
    let run = body.take(digit_run(body) as int);
    if text.len() == 0 {
        Err(NumberFault::Empty)
    } else if body.len() == 0 {
        Err(NumberFault::InvalidDigit)
    } else if digits_value(run) > u32::MAX {
        Err(NumberFault::TooLarge)
    } else if run.len() < body.len() {
        Err(NumberFault::InvalidDigit)
    } else {
        Ok(digits_value(body) as u32)
    }
}

/// The digit that stands for `d`, which is below ten.
pub open spec fn digit_char(d: nat) -> char {
    ('0' as u8 + d) as char
}

/// The decimal numeral of `n`, without sign or leading zeros.
pub open spec fn number_text(n: nat) -> Seq<char>
    decreases n,
{
    if n < 10 {
        seq![digit_char(n)]
    } else {
        number_text(n / 10).push(digit_char(n % 10))
    }
}

/// Reads a number from `raw`: an optional `+`, then decimal digits.
pub fn parse_number(raw: &str) -> (outcome: Result<u32, NumberFault>)
    ensures
        outcome == parsed_number(raw@),
{
    let mut rest = raw.chars();
    let mut current: Option<char> = rest.next();
    if current.is_none() {
        return Err(NumberFault::Empty);
    }
    if current == Some('+') {
        current = rest.next();
        if current.is_none() {
            return Err(NumberFault::InvalidDigit);
        }
    }
    let ghost body = unsigned_part(raw@);
    let ghost mut k: int = 0;
    let mut value: u32 = 0;
    assert(body.take(0) =~= Seq::<char>::empty());
    loop
        invariant
            raw@.len() > 0,
            body == unsigned_part(raw@),
            body.len() > 0,
            0 <= k <= body.len(),
            forall|j: int| 0 <= j < k ==> is_digit(#[trigger] body[j]),
            value == digits_value(body.take(k)),
            current is None ==> k == body.len(),
            current is Some ==> k < body.len() && current == Some(body[k]) && rest.remaining()
                == body.skip(k + 1),
        decreases body.len() - k,
    {
        match current {
            None => {
                proof {
                    lemma_digit_run_ends(body, k);
                    assert(body.take(k) =~= body);
                }
                return Ok(value);
            },
            Some(c) => {
                if !(c >= '0' && c <= '9') {
                    proof {
                        lemma_digit_run_ends(body, k);
                    }
                    return Err(NumberFault::InvalidDigit);
                }
                let digit: u32 = c as u32 - '0' as u32;
                proof {
                    lemma_value_step(body, k);
                }
                let next_value: Option<u32> = match value.checked_mul(10) {
                    Some(tens) => tens.checked_add(digit),
                    None => None,
                };
                match next_value {
                    Some(v) => {
                        value = v;
                    },
                    None => {
                        proof {
                            let run = digit_run(body) as int;
                            lemma_digit_run_bounds(body);
                            if run <= k {
                                lemma_digit_run_ends(body, run);
                                assert(false);
                            }
                            lemma_value_grows(body, k + 1, run);
                        }
                        return Err(NumberFault::TooLarge);
                    },
                }
                current = rest.next();
                proof {
                    k = k + 1;
                }
            },
        }
    }
}

/// Writes `n` as a decimal numeral.
pub fn format_number(n: u32) -> (text: String)
    ensures
        text@ == number_text(n as nat),
{
    let mut digits: Vec<u32> = Vec::new();
    let mut rest: u32 = n;
    loop
        invariant_except_break
            number_text(n as nat) == number_text(rest as nat) + reversed_digits(digits@),
        invariant
            forall|k: int| 0 <= k < digits.len() ==> digits[k] < 10,
        ensures
            number_text(n as nat) == reversed_digits(digits@),
        decreases rest,
    {
        let digit: u32 = rest % 10;
        let ghost before = digits@;
        digits.push(digit);
        assert(reversed_digits(digits@) == seq![digit_char(digit as nat)] + reversed_digits(
            before,
        ));
        if rest < 10 {
            break ;
        }
        rest = rest / 10;
    }
    let mut text = String::new();
    let mut k: usize = digits.len();
    while k > 0
        invariant
            k <= digits.len(),
            forall|j: int| 0 <= j < digits.len() ==> digits[j] < 10,
            text@ == reversed_digits(digits@).subrange(0, digits.len() - k),
        decreases k,
    {
        k = k - 1;
        let d: usize = digits[k] as usize;
        proof {
            reveal_strlit("0123456789");
            assert(DIGITS@[d as int] == digit_char(d as nat));
        }
        text.append(DIGITS.substring_ascii(d, d + 1));
    }
    text
}

/// Whether every character of `text` is a decimal digit.
pub open spec fn all_digits(text: Seq<char>) -> bool {
    forall|j: int| 0 <= j < text.len() ==> is_digit(#[trigger] text[j])
}

/// A text reads as a number exactly when, after an optional `+`, it holds
/// one digit or more, digits only, and their value fits a `u32`; it then
/// reads as that value.
pub proof fn lemma_parsed_number_ok(text: Seq<char>)
    ensures
        parsed_number(text) is Ok <==> unsigned_part(text).len() >= 1 && all_digits(
            unsigned_part(text),
        ) && digits_value(unsigned_part(text)) <= u32::MAX,
        parsed_number(text) is Ok ==> parsed_number(text) == Ok::<u32, NumberFault>(
            digits_value(unsigned_part(text)) as u32,
        ),
{
    let body = unsigned_part(text);
    lemma_digit_run_bounds(body);
    if all_digits(body) {
        lemma_digit_run_ends(body, body.len() as int);
    }
    if digit_run(body) == body.len() {
        assert(body.take(body.len() as int) =~= body);
    }
}

/// The numeral of a number holds digits only, and stands for that number.
pub proof fn lemma_number_text_digits(n: nat)
    ensures
        number_text(n).len() >= 1,
        all_digits(number_text(n)),
        digits_value(number_text(n)) == n,
    decreases n,
{
    if n < 10 {
        assert(digits_value(number_text(n).drop_last()) == 0);
        assert(digit_value(number_text(n).last()) == n);
    } else {
        lemma_number_text_digits(n / 10);
        assert(number_text(n).drop_last() =~= number_text(n / 10));
        assert(digit_value(number_text(n).last()) == n % 10);
    }
}

/// Reading what was written gives the number back: the numeral of every
/// `u32` reads as that number.
pub proof fn lemma_number_round_trip(n: u32)
    ensures
        parsed_number(number_text(n as nat)) == Ok::<u32, NumberFault>(n),
{
    let text = number_text(n as nat);
    lemma_number_text_digits(n as nat);
    assert(is_digit(text[0]));
    lemma_digit_run_ends(text, text.len() as int);
    assert(text.take(text.len() as int) =~= text);
}

/// The digit characters of `digits`, last digit first.
spec fn reversed_digits(digits: Seq<u32>) -> Seq<char> {
    Seq::new(digits.len(), |k: int| digit_char(digits[digits.len() - 1 - k] as nat))
}

/// Appending one character to a digit sequence multiplies its value by ten
/// and adds the character's value.
proof fn lemma_value_step(text: Seq<char>, k: int)
    requires
        0 <= k < text.len(),
    ensures
        digits_value(text.take(k + 1)) == 10 * digits_value(text.take(k)) + digit_value(text[k]),
{
    assert(text.take(k + 1).drop_last() =~= text.take(k));
}

/// A longer prefix never stands for a smaller number.
proof fn lemma_value_grows(text: Seq<char>, shorter: int, longer: int)
    requires
        0 <= shorter <= longer <= text.len(),
    ensures
        digits_value(text.take(shorter)) <= digits_value(text.take(longer)),
    decreases longer - shorter,
{
    if shorter < longer {
        lemma_value_grows(text, shorter, longer - 1);
        lemma_value_step(text, longer - 1);
    }
}

/// The digit run of a text lies within it, holds digits only, and is
/// followed by no digit.
proof fn lemma_digit_run_bounds(text: Seq<char>)
    ensures
        digit_run(text) <= text.len(),
        forall|j: int| 0 <= j < digit_run(text) ==> is_digit(#[trigger] text[j]),
        digit_run(text) == text.len() || !is_digit(text[digit_run(text) as int]),
    decreases text.len(),
{
    if text.len() > 0 && is_digit(text[0]) {
        let rest = text.skip(1);
        lemma_digit_run_bounds(rest);
        assert forall|j: int| 0 <= j < digit_run(text) implies is_digit(#[trigger] text[j]) by {
            if j > 0 {
                assert(text[j] == rest[j - 1]);
            }
        }
        if digit_run(text) < text.len() {
            assert(text[digit_run(text) as int] == rest[digit_run(rest) as int]);
        }
    }
}

/// The digit run of a text ends at the first character that is no digit.
proof fn lemma_digit_run_ends(text: Seq<char>, k: int)
    requires
        0 <= k <= text.len(),
        forall|j: int| 0 <= j < k ==> is_digit(#[trigger] text[j]),
        k == text.len() || !is_digit(text[k]),
    ensures
        digit_run(text) == k,
    decreases text.len(),
{
    if k > 0 {
        let rest = text.skip(1);
        assert forall|j: int| 0 <= j < k - 1 implies is_digit(#[trigger] rest[j]) by {
            assert(rest[j] == text[j + 1]);
        }
        lemma_digit_run_ends(rest, k - 1);
    }
}

} // verus!
