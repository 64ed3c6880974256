use rust_signatures::decimal::NumberFault;
use rust_signatures::error::{insufficient_arguments_message, Which};
use rust_signatures::{parse_args, validate, PageRange, ValidationError};

#[test]
fn test_parse_args() {
    let error_msg = "parse_args should be returning Ok.";
    let result = parse_args(vec![
        "target/debug/rust-signatures".to_string(),
        "1".to_string(),
        "60".to_string(),
    ]);
    match result {
        Ok((first_number, second_number)) => {
            assert_eq!(first_number, 1);
            assert_eq!(second_number, 60);
        },
        Err(result_error) => panic!(
            "{}",
            format!("{} Returned Err('{}').", error_msg, result_error.message())
        ),
    }

    // can be the same number twice
    let result = parse_args(vec![
        "target/debug/rust-signatures".to_string(),
        "33".to_string(),
        "33".to_string(),
    ]);
    match result {
        Ok((first_number, second_number)) => {
            assert_eq!(first_number, 33);
            assert_eq!(second_number, 33);
        },
        Err(result_error) => panic!(
            "{}",
            format!("{} Returned Err('{}').", error_msg, result_error.message())
        ),
    }

    // doesn't matter if it gets extra args
    let result = parse_args(vec![
        "target/debug/rust-signatures".to_string(),
        "5".to_string(),
        "185".to_string(),
        "asdfasdfad".to_string(),
    ]);
    match result {
        Ok((first_number, second_number)) => {
            assert_eq!(first_number, 5);
            assert_eq!(second_number, 185);
        },
        Err(result_error) => panic!(
            "{}",
            format!("{} Returned Err('{}').", error_msg, result_error.message())
        ),
    }
}

#[test]
fn test_parse_args_insufficient_args() {
    let result = parse_args(vec![
        "target/debug/rust-signatures".to_string(),
        "5".to_string(),
    ]);
    match result {
        Ok((first_number, second_number)) => {
            panic!(
                "{}",
                format!(
                    "Should have errored because of insufficient arguments! Got Ok(({}, {})).",
                    first_number,
                    second_number,
                )
            );
        },
        Err(result_error) => {
            let error_msg = format!("{}", result_error.message());
            assert!(error_msg.starts_with("Need at least two arguments to run!"));
        },
    }
}

#[test]
fn test_parse_args_first_arg_not_number() {
    let result = parse_args(vec![
        "target/debug/rust-signatures".to_string(),
        "asdfasd".to_string(),
        "60".to_string(),
    ]);
    match result {
        Ok((first_number, second_number)) => {
            panic!(
                "{}",
                format!(
                    "Should have errored because the first arg is not a number! Got Ok(({}, {})).",
                    first_number,
                    second_number,
                )
            );
        },
        Err(result_error) => {
            let error_msg = format!("{}", result_error.message());
            assert!(error_msg.starts_with("invalid digit found in string"));
        },
    }
}

#[test]
fn test_parse_args_second_arg_not_number() {
    let result = parse_args(vec![
        "target/debug/rust-signatures".to_string(),
        "345".to_string(),
        "asdfa60".to_string(),
    ]);
    match result {
        Ok((first_number, second_number)) => {
            panic!(
                "{}",
                format!(
                    "Should have errored because the second arg is not a number! Got Ok(({}, {})).",
                    first_number,
                    second_number,
                )
            );
        },
        Err(result_error) => {
            let error_msg = format!("{}", result_error.message());
            assert!(error_msg.starts_with("invalid digit found in string"));
        },
    }
}

#[test]
fn test_parse_args_first_arg_zero() {
    let result = parse_args(vec![
        "target/debug/rust-signatures".to_string(),
        "0".to_string(),
        "60".to_string(),
    ]);
    match result {
        Ok((first_number, second_number)) => {
            panic!(
                "{}",
                format!(
                    "Should have errored because the first arg is zero! Got Ok(({}, {})).",
                    first_number,
                    second_number,
                )
            );
        },
        Err(result_error) => {
            let error_msg = format!("{}", result_error.message());
            assert!(error_msg.starts_with("There is no page zero!"));
        },
    }
}

#[test]
fn test_parse_args_second_arg_smaller() {
    let result = parse_args(vec![
        "target/debug/rust-signatures".to_string(),
        "33".to_string(),
        "32".to_string(),
    ]);
    match result {
        Ok((first_number, second_number)) => {
            panic!(
                "{}",
                format!(
                    "Should have errored because first arg > second arg! Got Ok(({}, {})).",
                    first_number,
                    second_number,
                )
            );
        },
        Err(result_error) => {
            let error_msg = format!("{}", result_error.message());
            assert!(error_msg.starts_with("The second number must be greater than"));
        },
    }
}

fn args(items: &[&str]) -> Vec<String> {
    items.iter().map(|s| s.to_string()).collect()
}

fn malformed(which: Which, raw: &str, fault: NumberFault) -> ValidationError {
    ValidationError::MalformedNumber { which, raw: raw.to_string(), fault }
}

#[test]
fn validate_rejects_page_zero() {
    assert_eq!(validate("0", "60").err(), Some(ValidationError::ZeroPageError));
}

#[test]
fn validate_rejects_a_range_that_runs_backwards() {
    assert_eq!(
        validate("33", "32").err(),
        Some(ValidationError::RangeOrderError { first: 33, second: 32 })
    );
}

#[test]
fn validate_rejects_what_is_no_number() {
    assert_eq!(
        validate("abc", "60").err(),
        Some(malformed(Which::First, "abc", NumberFault::InvalidDigit))
    );
    assert_eq!(
        validate("60", "abc").err(),
        Some(malformed(Which::Second, "abc", NumberFault::InvalidDigit))
    );
    assert_eq!(validate("", "60").err(), Some(malformed(Which::First, "", NumberFault::Empty)));
    assert_eq!(
        validate("1", "4294967296").err(),
        Some(malformed(Which::Second, "4294967296", NumberFault::TooLarge))
    );
}

#[test]
fn validate_accepts_a_range() {
    let range = validate("12", "30").unwrap();
    assert_eq!((range.first(), range.last()), (12, 30));
    let range = validate("1", "1").unwrap();
    assert_eq!((range.first(), range.last()), (1, 1));
    let range = validate("1", "4294967295").unwrap();
    assert_eq!((range.first(), range.last()), (1, u32::MAX));
}

#[test]
fn checks_come_in_order() {
    // a first number that is no number is reported before a second one that is none
    assert_eq!(
        validate("x", "y").err(),
        Some(malformed(Which::First, "x", NumberFault::InvalidDigit))
    );
    // a second number that is no number is reported before a first page of zero
    assert_eq!(
        validate("0", "y").err(),
        Some(malformed(Which::Second, "y", NumberFault::InvalidDigit))
    );
    // page zero is reported before a wrong order, which cannot occur with it
    assert_eq!(validate("0", "0").err(), Some(ValidationError::ZeroPageError));
}

#[test]
fn a_page_range_is_checked_when_made() {
    assert_eq!(PageRange::new(0, 60).err(), Some(ValidationError::ZeroPageError));
    assert_eq!(
        PageRange::new(33, 32).err(),
        Some(ValidationError::RangeOrderError { first: 33, second: 32 })
    );
    let range = PageRange::new(33, 33).unwrap();
    assert_eq!((range.first(), range.last()), (33, 33));
}

#[test]
fn missing_arguments_are_reported_with_those_that_came() {
    assert_eq!(
        parse_args(args(&["program", "5"])),
        Err(ValidationError::InsufficientArguments { received: args(&["5"]) })
    );
    assert_eq!(
        parse_args(args(&["program"])),
        Err(ValidationError::InsufficientArguments { received: args(&[]) })
    );
    assert_eq!(
        parse_args(args(&[])),
        Err(ValidationError::InsufficientArguments { received: args(&[]) })
    );
}

#[test]
fn parse_args_reports_each_error() {
    assert_eq!(
        parse_args(args(&["program", "asdfasd", "60"])),
        Err(malformed(Which::First, "asdfasd", NumberFault::InvalidDigit))
    );
    assert_eq!(
        parse_args(args(&["program", "345", "asdfa60"])),
        Err(malformed(Which::Second, "asdfa60", NumberFault::InvalidDigit))
    );
    assert_eq!(parse_args(args(&["program", "0", "60"])), Err(ValidationError::ZeroPageError));
    assert_eq!(
        parse_args(args(&["program", "33", "32"])),
        Err(ValidationError::RangeOrderError { first: 33, second: 32 })
    );
    assert_eq!(parse_args(args(&["program", "5", "185", "asdfasdfad"])), Ok((5, 185)));
}

#[test]
fn messages_say_what_is_wrong() {
    assert_eq!(
        ValidationError::InsufficientArguments { received: args(&["5"]) }.message(),
        "Need at least two arguments to run! Got: [\"5\"]"
    );
    assert_eq!(
        ValidationError::InsufficientArguments { received: args(&[]) }.message(),
        "Need at least two arguments to run! Got: []"
    );
    assert_eq!(
        ValidationError::InsufficientArguments { received: args(&["a\"b", "c\n"]) }.message(),
        "Need at least two arguments to run! Got: [\"a\\\"b\", \"c\\n\"]"
    );
    assert_eq!(
        malformed(Which::First, "", NumberFault::Empty).message(),
        "cannot parse integer from empty string"
    );
    assert_eq!(
        malformed(Which::First, "abc", NumberFault::InvalidDigit).message(),
        "invalid digit found in string"
    );
    assert_eq!(
        malformed(Which::Second, "4294967296", NumberFault::TooLarge).message(),
        "number too large to fit in target type"
    );
    assert_eq!(
        ValidationError::ZeroPageError.message(),
        "There is no page zero! Received 0 as the first page number."
    );
    assert_eq!(
        ValidationError::RangeOrderError { first: 33, second: 32 }.message(),
        "The second number must be greater than or equal to the first! 33 > 32."
    );
}

#[test]
fn the_message_of_missing_arguments_wraps_their_listing() {
    assert_eq!(
        insufficient_arguments_message("[\"5\"]"),
        "Need at least two arguments to run! Got: [\"5\"]"
    );
    assert_eq!(
        insufficient_arguments_message(""),
        "Need at least two arguments to run! Got: "
    );
}
