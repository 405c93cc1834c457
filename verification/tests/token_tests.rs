use gpio_cli::errors::ParseError;
use gpio_cli::tokens::LogicValue;
use gpio_cli::tokens::PinMode;
use gpio_cli::tokens::PullMode;

#[test]
fn logic_value_low_tokens() {
    assert_eq!(LogicValue::parse("0"), Ok(LogicValue::Low));
    assert_eq!(LogicValue::parse("low"), Ok(LogicValue::Low));
    assert_eq!(LogicValue::parse("l"), Ok(LogicValue::Low));
    assert_eq!(LogicValue::parse("LOW"), Ok(LogicValue::Low));
    assert_eq!(LogicValue::parse(" LoW "), Ok(LogicValue::Low));
    assert_eq!(LogicValue::parse("\tL\n"), Ok(LogicValue::Low));
}

#[test]
fn logic_value_high_tokens() {
    assert_eq!(LogicValue::parse("1"), Ok(LogicValue::High));
    assert_eq!(LogicValue::parse("high"), Ok(LogicValue::High));
    assert_eq!(LogicValue::parse("hi"), Ok(LogicValue::High));
    assert_eq!(LogicValue::parse("h"), Ok(LogicValue::High));
    assert_eq!(LogicValue::parse("HIGH"), Ok(LogicValue::High));
    assert_eq!(LogicValue::parse("  Hi\t"), Ok(LogicValue::High));
}

#[test]
fn logic_value_rejects_other_tokens() {
    assert_eq!(LogicValue::parse(""), Err(ParseError::InvalidValue));
    assert_eq!(LogicValue::parse("  "), Err(ParseError::InvalidValue));
    assert_eq!(LogicValue::parse("2"), Err(ParseError::InvalidValue));
    assert_eq!(LogicValue::parse("lo w"), Err(ParseError::InvalidValue));
    assert_eq!(LogicValue::parse("highest"), Err(ParseError::InvalidValue));
    assert_eq!(LogicValue::parse("on"), Err(ParseError::InvalidValue));
}

#[test]
fn pin_mode_tokens() {
    assert_eq!(PinMode::parse("out"), Ok(PinMode::Output));
    assert_eq!(PinMode::parse("output"), Ok(PinMode::Output));
    assert_eq!(PinMode::parse("o"), Ok(PinMode::Output));
    assert_eq!(PinMode::parse("in"), Ok(PinMode::Input));
    assert_eq!(PinMode::parse("input"), Ok(PinMode::Input));
    assert_eq!(PinMode::parse("i"), Ok(PinMode::Input));
    assert_eq!(PinMode::parse(" OUT "), Ok(PinMode::Output));
    assert_eq!(PinMode::parse("Input"), Ok(PinMode::Input));
}

#[test]
fn pin_mode_rejects_other_tokens() {
    assert_eq!(PinMode::parse(""), Err(ParseError::InvalidMode));
    assert_eq!(PinMode::parse("inout"), Err(ParseError::InvalidMode));
    assert_eq!(PinMode::parse("0"), Err(ParseError::InvalidMode));
    assert_eq!(PinMode::parse("outputs"), Err(ParseError::InvalidMode));
}

#[test]
fn pull_mode_tokens() {
    assert_eq!(PullMode::parse("0"), Ok(PullMode::Down));
    assert_eq!(PullMode::parse("down"), Ok(PullMode::Down));
    assert_eq!(PullMode::parse("d"), Ok(PullMode::Down));
    assert_eq!(PullMode::parse("1"), Ok(PullMode::Up));
    assert_eq!(PullMode::parse("up"), Ok(PullMode::Up));
    assert_eq!(PullMode::parse("u"), Ok(PullMode::Up));
    assert_eq!(PullMode::parse("\tDown "), Ok(PullMode::Down));
    assert_eq!(PullMode::parse(" UP"), Ok(PullMode::Up));
}

#[test]
fn pull_mode_rejects_other_tokens() {
    assert_eq!(PullMode::parse(""), Err(ParseError::InvalidPull));
    assert_eq!(PullMode::parse("2"), Err(ParseError::InvalidPull));
    assert_eq!(PullMode::parse("upward"), Err(ParseError::InvalidPull));
    assert_eq!(PullMode::parse("sideways"), Err(ParseError::InvalidPull));
}

#[test]
fn normalization_trims_and_folds_every_class() {
    // the same token in odd case with odd whitespace, once per class
    assert_eq!(LogicValue::parse("\u{a0}\u{2003}hI \u{3000}"), Ok(LogicValue::High));
    assert_eq!(PinMode::parse("\r\nOuTpUt\t"), Ok(PinMode::Output));
    assert_eq!(PullMode::parse("  dOwN\u{2028}"), Ok(PullMode::Down));
    // whitespace inside a token is not surrounding whitespace
    assert_eq!(LogicValue::parse("h i"), Err(ParseError::InvalidValue));
}
