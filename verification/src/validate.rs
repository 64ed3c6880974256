//! Validation of the two page numbers that a document's range is made of.

use crate::decimal::{parse_number, parsed_number};
use crate::error::{Rejection, ValidationError, Which};
use vstd::prelude::*;

verus! {

/// What validation gives, as a plain value: the first and the last page of
/// the range, or the error.
pub type Verdict = Result<(int, int), Rejection>;

/// An inclusive range of pages that starts at page one or later and does not
/// end before it starts.
#[derive(Clone, Copy, Debug, PartialEq, Eq)]
pub struct PageRange {
    first: u32,
    last: u32,
}

/// What two numbers give as a page range: the pair itself where the first is
/// not zero and the second is not below it, and else the error, a zero first
/// page being reported before a wrong order.
pub open spec fn checked_range(first: int, last: int) -> Verdict {
    if first == 0 {
        Err(Rejection::ZeroPageError)
    } else if last < first {
        Err(Rejection::RangeOrderError { first, second: last })
    } else {
        Ok((first, last))
    }
}

impl View for PageRange {
    type V = (int, int);

    closed spec fn view(&self) -> (int, int) {
        (self.first as int, self.last as int)
    }
}

impl PageRange {
    #[verifier::type_invariant]
    spec fn ordered(self) -> bool {
        1 <= self.first <= self.last
    }

    /// Makes the range from `first` to `last`, or says why there is none.
    pub fn new(first: u32, last: u32) -> (outcome: Result<PageRange, ValidationError>)
        ensures
            match outcome {
                Ok(range) => checked_range(first as int, last as int) == Verdict::Ok(range@),
                Err(error) => checked_range(first as int, last as int) == Verdict::Err(error@),
            },
    {
        if first == 0 {
            Err(ValidationError::ZeroPageError)
        } else if last < first {
            Err(ValidationError::RangeOrderError { first, second: last })
        } else {
            Ok(PageRange { first, last })
        }
    }

    /// The first page of the range.
    pub fn first(&self) -> (page: u32)
        ensures
            page == self@.0,
            1 <= page <= self@.1,
    {
        proof {
            use_type_invariant(self);
        }
        self.first
    }

    /// The last page of the range.
    pub fn last(&self) -> (page: u32)
        ensures
            page == self@.1,
            1 <= self@.0 <= page,
    {
        proof {
            use_type_invariant(self);
        }
        self.last
    }
}

/// What two texts give as a page range. Both must read as numbers, the first
/// text being looked at first; the numbers are then checked as a range.
pub open spec fn validated(raw_first: Seq<char>, raw_second: Seq<char>) -> Verdict {
    match parsed_number(raw_first) {
        Err(fault) => Err(Rejection::MalformedNumber { which: Which::First, raw: raw_first, fault }),
        Ok(first) => match parsed_number(raw_second) {
            Err(fault) => Err(
                Rejection::MalformedNumber { which: Which::Second, raw: raw_second, fault },
            ),
            Ok(second) => checked_range(first as int, second as int),
        },
    }
}

/// Validates two raw page numbers into a page range.
pub fn validate(raw_first: &str, raw_second: &str) -> (outcome: Result<PageRange, ValidationError>)
    ensures
        match outcome {
            Ok(range) => validated(raw_first@, raw_second@) == Verdict::Ok(range@),
            Err(error) => validated(raw_first@, raw_second@) == Verdict::Err(error@),
        },
{
    let first: u32 = match parse_number(raw_first) {
        Ok(number) => number,
        Err(fault) => {
            return Err(
                ValidationError::MalformedNumber {
                    which: Which::First,
                    raw: raw_first.to_owned(),
                    fault,
                },
            );
        },
    };
    let second: u32 = match parse_number(raw_second) {
        Ok(number) => number,
        Err(fault) => {
            return Err(
                ValidationError::MalformedNumber {
                    which: Which::Second,
                    raw: raw_second.to_owned(),
                    fault,
                },
            );
        },
    };
    PageRange::new(first, second)
}

/// The arguments that follow the program's name.
pub open spec fn usable_arguments(all_args: Seq<Seq<char>>) -> Seq<Seq<char>> {
    if all_args.len() == 0 {
        all_args
    } else {
        all_args.skip(1)
    }
}

/// What a command line gives as a page range. The first argument is the
/// program's name; the two that follow are the page numbers, and any further
/// ones are ignored.
pub open spec fn parsed_args(all_args: Seq<Seq<char>>) -> Verdict {
    if all_args.len() < 3 {
        Err(Rejection::InsufficientArguments { received: usable_arguments(all_args) })
    } else {
        validated(all_args[1], all_args[2])
    }
}

/// Reads the first and the last page number from a command line.
pub fn parse_args(all_args: Vec<String>) -> (outcome: Result<(u32, u32), ValidationError>)
    ensures
        match outcome {
            Ok((first, second)) => parsed_args(all_args.deep_view()) == Verdict::Ok(
                (first as int, second as int),
            ),
            Err(error) => parsed_args(all_args.deep_view()) == Verdict::Err(error@),
        },
{
    if all_args.len() < 3 {
        let mut received = all_args;
        if received.len() > 0 {
            received.remove(0);
        }
        assert(received.deep_view() =~= usable_arguments(all_args.deep_view()));
        return Err(ValidationError::InsufficientArguments { received });
    }
    match validate(all_args[1].as_str(), all_args[2].as_str()) {
        Ok(range) => Ok((range.first(), range.last())),
        Err(error) => Err(error),
    }
}

} // verus!
