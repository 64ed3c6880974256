//! The errors that validation reports, and what they tell a person.

use crate::decimal::{format_number, number_text, NumberFault};
use vstd::prelude::*;

verus! {

/// Which of the two page numbers is meant.
#[derive(Clone, Copy, Debug, PartialEq, Eq, Structural)]
pub enum Which {
    First,
    Second,
}

/// Why the input does not give a page range.
#[derive(Debug, PartialEq, Eq)]
pub enum ValidationError {
    /// Fewer than two arguments came after the program's name; `received`
    /// holds those that came.
    InsufficientArguments { received: Vec<String> },
    /// The argument `raw` is not the numeral of a page number.
    MalformedNumber { which: Which, raw: String, fault: NumberFault },
    /// The first page number is zero.
    ZeroPageError,
    /// The second page number is below the first.
    RangeOrderError { first: u32, second: u32 },
}

/// A validation error as a plain value.
pub enum Rejection {
    InsufficientArguments { received: Seq<Seq<char>> },
    MalformedNumber { which: Which, raw: Seq<char>, fault: NumberFault },
    ZeroPageError,
    RangeOrderError { first: int, second: int },
}

impl View for ValidationError {
    type V = Rejection;

    open spec fn view(&self) -> Rejection {
        match *self {
            ValidationError::InsufficientArguments { received } => Rejection::InsufficientArguments {
                received: received.deep_view(),
            },
            ValidationError::MalformedNumber { which, raw, fault } => Rejection::MalformedNumber {
                which,
                raw: raw@,
                fault,
            },
            ValidationError::ZeroPageError => Rejection::ZeroPageError,
            ValidationError::RangeOrderError { first, second } => Rejection::RangeOrderError {
                first: first as int,
                second: second as int,
            },
        }
    }
}

/// What the debug formatting of a list of strings writes: the strings in
/// square brackets, separated by commas, each in double quotes with its
/// special characters escaped.
pub uninterp spec fn debug_listing(items: Seq<Seq<char>>) -> Seq<char>;

/// Formats a list of strings with the `{:?}` formatting of `format!`, which
/// goes through the `Debug` impls of `Vec` and `String`. The outcome depends
/// on the contents of the strings alone, so it is named as a function of them.
#[verifier::external_body]
fn list_arguments(items: &Vec<String>) -> (listing: String)
    ensures
        listing@ == debug_listing(items.deep_view()),
{
    format!("{:?}", items)
}

/// The message that tells that arguments are missing, given the listing of
/// those that came.
pub fn insufficient_arguments_message(listing: &str) -> (text: String)
    ensures
        text@ == "Need at least two arguments to run! Got: "@ + listing@,
{
    let mut text = "Need at least two arguments to run! Got: ".to_owned();
    text.append(listing);
    text
}

/// What is wrong with a text that is no numeral, in words.
pub open spec fn fault_text(fault: NumberFault) -> Seq<char> {
    match fault {
        NumberFault::Empty => "cannot parse integer from empty string"@,
        NumberFault::InvalidDigit => "invalid digit found in string"@,
        NumberFault::TooLarge => "number too large to fit in target type"@,
    }
}

/// The message of a validation error.
pub open spec fn message_text(error: Rejection) -> Seq<char> {
    match error {
        Rejection::InsufficientArguments { received } =>
            "Need at least two arguments to run! Got: "@ + debug_listing(received),
        Rejection::MalformedNumber { fault, .. } => fault_text(fault),
        Rejection::ZeroPageError => "There is no page zero! Received 0 as the first page number."@,
        Rejection::RangeOrderError { first, second } =>
            "The second number must be greater than or equal to the first! "@ + number_text(
                first as nat,
            ) + " > "@ + number_text(second as nat) + "."@,
    }
}

impl ValidationError {
    /// The message that tells a person what is wrong.
    pub fn message(&self) -> (text: String)
        ensures
            text@ == message_text(self@),
    {
        match self {
            ValidationError::InsufficientArguments { received } => {
                let listing = list_arguments(received);
                insufficient_arguments_message(listing.as_str())
            },
            ValidationError::MalformedNumber { fault, .. } => match fault {
                NumberFault::Empty => "cannot parse integer from empty string".to_owned(),
                NumberFault::InvalidDigit => "invalid digit found in string".to_owned(),
                NumberFault::TooLarge => "number too large to fit in target type".to_owned(),
            },
            ValidationError::ZeroPageError => {
                "There is no page zero! Received 0 as the first page number.".to_owned()
            },
            ValidationError::RangeOrderError { first, second } => {
                let mut text =
                    "The second number must be greater than or equal to the first! ".to_owned();
                text.append(format_number(*first).as_str());
                text.append(" > ");
                text.append(format_number(*second).as_str());
                text.append(".");
                text
            },
        }
    }
}

} // verus!
