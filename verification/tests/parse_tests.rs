use gpio_cli::command::parse;
use gpio_cli::command::Command;
use gpio_cli::errors::ParseError;
use gpio_cli::tokens::LogicValue;
use gpio_cli::tokens::PinMode;
use gpio_cli::tokens::PullMode;

fn args(words: &[&str]) -> Vec<String> {
    words.iter().map(|w| w.to_string()).collect()
}

#[test]
fn setup_input_without_pull_is_missing_required_option() {
    let r = parse(&args(&["setup", "in", "4", "17"]));
    assert_eq!(r, Err(ParseError::MissingRequiredOption));
}

#[test]
fn setup_input_with_pull_up() {
    let r = parse(&args(&["setup", "in", "4", "17", "--pull", "up"]));
    match r {
        Ok(Command::Setup { mode, pins, reset_on_drop, pull }) => {
            assert_eq!(mode, PinMode::Input);
            assert_eq!(pins, vec![4u8, 17u8]);
            assert!(!reset_on_drop);
            assert_eq!(pull, Some(PullMode::Up));
        },
        other => panic!("unexpected parse result: {:?}", other.map(|_| ())),
    }
}

#[test]
fn setup_output_with_reset_flag() {
    let r = parse(&args(&["setup", "out", "4", "17", "-r"]));
    match r {
        Ok(Command::Setup { mode, pins, reset_on_drop, pull }) => {
            assert_eq!(mode, PinMode::Output);
            assert_eq!(pins, vec![4u8, 17u8]);
            assert!(reset_on_drop);
            assert_eq!(pull, None);
        },
        other => panic!("unexpected parse result: {:?}", other.map(|_| ())),
    }
}

#[test]
fn test_high_two_pins() {
    let r = parse(&args(&["test", "high", "4", "17"]));
    match r {
        Ok(Command::Test { value, pins, reset_on_drop }) => {
            assert_eq!(value, LogicValue::High);
            assert_eq!(pins, vec![4u8, 17u8]);
            assert!(!reset_on_drop);
        },
        other => panic!("unexpected parse result: {:?}", other.map(|_| ())),
    }
}

#[test]
fn test_with_short_flags_and_tokens() {
    let r = parse(&args(&["test", "0", "12", "-r"]));
    match r {
        Ok(Command::Test { value, pins, reset_on_drop }) => {
            assert_eq!(value, LogicValue::Low);
            assert_eq!(pins, vec![12u8]);
            assert!(reset_on_drop);
        },
        other => panic!("unexpected parse result: {:?}", other.map(|_| ())),
    }
}

#[test]
fn setup_with_short_pull_flag() {
    let r = parse(&args(&["setup", "i", "7", "-p", "d"]));
    match r {
        Ok(Command::Setup { mode, pins, reset_on_drop, pull }) => {
            assert_eq!(mode, PinMode::Input);
            assert_eq!(pins, vec![7u8]);
            assert!(!reset_on_drop);
            assert_eq!(pull, Some(PullMode::Down));
        },
        other => panic!("unexpected parse result: {:?}", other.map(|_| ())),
    }
}

#[test]
fn unknown_subcommand_is_rejected() {
    assert_eq!(parse(&args(&["frobnicate", "4"])), Err(ParseError::UnknownSubcommand));
    assert_eq!(parse(&args(&[])), Err(ParseError::UnknownSubcommand));
    // the subcommand name itself is matched exactly
    assert_eq!(parse(&args(&["Setup", "out", "4"])), Err(ParseError::UnknownSubcommand));
}

#[test]
fn bad_mode_token_is_invalid_mode() {
    assert_eq!(parse(&args(&["setup", "sideways", "4"])), Err(ParseError::InvalidMode));
    assert_eq!(parse(&args(&["setup"])), Err(ParseError::InvalidMode));
}

#[test]
fn bad_value_token_is_invalid_value() {
    assert_eq!(parse(&args(&["test", "blue", "4"])), Err(ParseError::InvalidValue));
    assert_eq!(parse(&args(&["test"])), Err(ParseError::InvalidValue));
}

#[test]
fn bad_pin_tokens_are_invalid_pin() {
    assert_eq!(parse(&args(&["setup", "out", "4", "abc"])), Err(ParseError::InvalidPin));
    assert_eq!(parse(&args(&["setup", "out", "256"])), Err(ParseError::InvalidPin));
    assert_eq!(parse(&args(&["test", "high", "-5"])), Err(ParseError::InvalidPin));
    assert_eq!(parse(&args(&["test", "high", ""])), Err(ParseError::InvalidPin));
}

#[test]
fn pin_tokens_accept_decimal_forms() {
    let r = parse(&args(&["test", "high", "007", "+17", "255"]));
    match r {
        Ok(Command::Test { pins, .. }) => {
            assert_eq!(pins, vec![7u8, 17u8, 255u8]);
        },
        other => panic!("unexpected parse result: {:?}", other.map(|_| ())),
    }
}

#[test]
fn bad_pull_tokens_are_invalid_pull() {
    assert_eq!(
        parse(&args(&["setup", "in", "4", "--pull", "sideways"])),
        Err(ParseError::InvalidPull)
    );
    // a pull option with no token at all
    assert_eq!(parse(&args(&["setup", "in", "4", "--pull"])), Err(ParseError::InvalidPull));
}

#[test]
fn pull_is_kept_but_not_required_for_outputs() {
    let r = parse(&args(&["setup", "out", "4", "--pull", "up"]));
    match r {
        Ok(Command::Setup { mode, pull, .. }) => {
            assert_eq!(mode, PinMode::Output);
            assert_eq!(pull, Some(PullMode::Up));
        },
        other => panic!("unexpected parse result: {:?}", other.map(|_| ())),
    }
}

#[test]
fn flags_may_stand_anywhere() {
    let r = parse(&args(&["setup", "-r", "in", "-p", "up", "4"]));
    match r {
        Ok(Command::Setup { mode, pins, reset_on_drop, pull }) => {
            assert_eq!(mode, PinMode::Input);
            assert_eq!(pins, vec![4u8]);
            assert!(reset_on_drop);
            assert_eq!(pull, Some(PullMode::Up));
        },
        other => panic!("unexpected parse result: {:?}", other.map(|_| ())),
    }
}

#[test]
fn duplicate_pins_and_order_are_preserved() {
    let r = parse(&args(&["test", "low", "17", "4", "17"]));
    match r {
        Ok(Command::Test { pins, .. }) => {
            assert_eq!(pins, vec![17u8, 4u8, 17u8]);
        },
        other => panic!("unexpected parse result: {:?}", other.map(|_| ())),
    }
}
