use cache_sim::options::{parse_arguments, Settings, UsageError};

fn args(words: &[&str]) -> Vec<String> {
    words.iter().map(|word| word.to_string()).collect()
}

fn text(value: &str) -> Option<String> {
    Some(value.to_string())
}

#[test]
fn four_options_give_the_settings() {
    let outcome = parse_arguments(&args(&["sim", "-s", "4", "-E", "2", "-b", "5", "-t", "yi.trace"]));
    assert_eq!(
        outcome,
        Ok(Settings { s: 4, e: 2, b: 5, trace_file: "yi.trace".to_string() })
    );
}

#[test]
fn options_may_come_in_any_order_and_glued_to_their_values() {
    let outcome = parse_arguments(&args(&["sim", "-tlong.trace", "-b1", "-E3", "-s2"]));
    assert_eq!(
        outcome,
        Ok(Settings { s: 2, e: 3, b: 1, trace_file: "long.trace".to_string() })
    );
}

#[test]
fn program_name_is_not_an_option() {
    let outcome = parse_arguments(&args(&["-s", "-s", "1", "-E", "1"]));
    assert_eq!(outcome, Ok(Settings { s: 1, e: 1, b: 0, trace_file: String::new() }));
}

#[test]
fn missing_options_count_as_zero_and_empty() {
    let outcome = parse_arguments(&args(&["sim", "-s", "3", "free"]));
    assert_eq!(outcome, Ok(Settings { s: 3, e: 0, b: 0, trace_file: String::new() }));
    let outcome = parse_arguments(&args(&["sim", "a", "b", "c"]));
    assert_eq!(outcome, Ok(Settings { s: 0, e: 0, b: 0, trace_file: String::new() }));
}

#[test]
fn fewer_than_three_arguments_are_refused() {
    assert_eq!(parse_arguments(&args(&[])), Err(UsageError::TooFewArguments));
    assert_eq!(parse_arguments(&args(&["sim"])), Err(UsageError::TooFewArguments));
    assert_eq!(parse_arguments(&args(&["sim", "-s", "1"])), Err(UsageError::TooFewArguments));
    assert_eq!(parse_arguments(&args(&["sim", "-x", "-y"])), Err(UsageError::TooFewArguments));
}

#[test]
fn unknown_option_is_rejected() {
    let outcome = parse_arguments(&args(&["sim", "-s", "1", "-x"]));
    assert_eq!(
        outcome,
        Err(UsageError::Rejected(getopts::Fail::UnrecognizedOption("x".to_string())))
    );
}

#[test]
fn option_without_value_is_rejected() {
    let outcome = parse_arguments(&args(&["sim", "-s", "1", "-E"]));
    assert_eq!(
        outcome,
        Err(UsageError::Rejected(getopts::Fail::ArgumentMissing("E".to_string())))
    );
}

#[test]
fn option_given_twice_is_rejected() {
    let outcome = parse_arguments(&args(&["sim", "-s", "1", "-s", "2"]));
    assert_eq!(
        outcome,
        Err(UsageError::Rejected(getopts::Fail::OptionDuplicated("s".to_string())))
    );
}

#[test]
fn value_that_is_no_number_is_refused() {
    let outcome = parse_arguments(&args(&["sim", "-s", "four", "-E", "1"]));
    assert_eq!(outcome, Err(UsageError::InvalidNumber("four".to_string())));
    let outcome = parse_arguments(&args(&["sim", "-s", "4", "-E", "4294967296"]));
    assert_eq!(outcome, Err(UsageError::InvalidNumber("4294967296".to_string())));
    let outcome = parse_arguments(&args(&["sim", "-b", "-1", "-E", "1"]));
    assert_eq!(outcome, Err(UsageError::InvalidNumber("-1".to_string())));
}

#[test]
fn values_are_judged_in_the_order_s_b_e() {
    let outcome = Settings::from_values(text("x"), text("y"), text("z"), None);
    assert_eq!(outcome, Err(UsageError::InvalidNumber("x".to_string())));
    let outcome = Settings::from_values(text("1"), text("y"), text("z"), None);
    assert_eq!(outcome, Err(UsageError::InvalidNumber("z".to_string())));
    let outcome = Settings::from_values(text("1"), text("y"), text("3"), None);
    assert_eq!(outcome, Err(UsageError::InvalidNumber("y".to_string())));
}

#[test]
fn values_become_settings() {
    let outcome = Settings::from_values(text("1"), text("+2"), text("3"), text("a b"));
    assert_eq!(outcome, Ok(Settings { s: 1, e: 2, b: 3, trace_file: "a b".to_string() }));
    let outcome = Settings::from_values(None, None, None, None);
    assert_eq!(outcome, Ok(Settings { s: 0, e: 0, b: 0, trace_file: String::new() }));
    let outcome = Settings::from_values(text(""), None, None, None);
    assert_eq!(outcome, Err(UsageError::InvalidNumber(String::new())));
}
