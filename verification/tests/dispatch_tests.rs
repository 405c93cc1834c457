use gpio_cli::command::parse;
use gpio_cli::dispatch::plan;
use gpio_cli::dispatch::Dispatcher;
use gpio_cli::dispatch::PinAction;
use gpio_cli::errors::HardwareError;
use gpio_cli::tokens::LogicValue;
use gpio_cli::tokens::PullMode;

fn args(words: &[&str]) -> Vec<String> {
    words.iter().map(|w| w.to_string()).collect()
}

#[test]
fn test_command_plans_drives_in_pin_order() {
    let cmd = parse(&args(&["test", "high", "4", "17"])).unwrap();
    let ops = plan(&cmd);
    assert_eq!(ops.len(), 2);
    assert_eq!(ops[0].pin, 4);
    assert_eq!(ops[1].pin, 17);
    for op in &ops {
        assert_eq!(op.action, PinAction::Output { drive: Some(LogicValue::High) });
        assert!(!op.reset_on_drop);
    }
}

#[test]
fn setup_output_plans_no_drive() {
    let cmd = parse(&args(&["setup", "out", "4", "17", "-r"])).unwrap();
    let ops = plan(&cmd);
    assert_eq!(ops.len(), 2);
    for op in &ops {
        assert_eq!(op.action, PinAction::Output { drive: None });
        assert!(op.reset_on_drop);
    }
}

#[test]
fn setup_input_plans_pull_configuration() {
    let cmd = parse(&args(&["setup", "in", "9", "--pull", "down"])).unwrap();
    let ops = plan(&cmd);
    assert_eq!(ops.len(), 1);
    assert_eq!(ops[0].pin, 9);
    assert_eq!(ops[0].action, PinAction::Input { pull: Some(PullMode::Down) });
}

#[test]
fn dispatcher_walks_the_whole_plan_on_success() {
    let cmd = parse(&args(&["test", "high", "4", "17"])).unwrap();
    let mut d = Dispatcher::new(&cmd);
    let first = d.next_op().unwrap();
    assert_eq!(first.pin, 4);
    assert_eq!(first.action, PinAction::Output { drive: Some(LogicValue::High) });
    d.report_success();
    let second = d.next_op().unwrap();
    assert_eq!(second.pin, 17);
    assert_eq!(second.action, PinAction::Output { drive: Some(LogicValue::High) });
    d.report_success();
    assert_eq!(d.next_op(), None);
    assert_eq!(d.outcome(), Ok(()));
}

#[test]
fn dispatcher_stops_at_the_first_failure() {
    // pin 4 is configured, the attempt on pin 99 fails, and nothing follows
    let cmd = parse(&args(&["test", "high", "4", "99", "17"])).unwrap();
    let mut d = Dispatcher::new(&cmd);
    let first = d.next_op().unwrap();
    assert_eq!(first.pin, 4);
    d.report_success();
    let second = d.next_op().unwrap();
    assert_eq!(second.pin, 99);
    d.report_failure(HardwareError::AcquisitionFailed);
    assert_eq!(d.next_op(), None);
    assert_eq!(d.outcome(), Err(HardwareError::AcquisitionFailed));
}

#[test]
fn empty_pin_list_plans_nothing() {
    let cmd = parse(&args(&["test", "low"])).unwrap();
    let ops = plan(&cmd);
    assert_eq!(ops.len(), 0);
    let d = Dispatcher::new(&cmd);
    assert_eq!(d.next_op(), None);
    assert_eq!(d.outcome(), Ok(()));
}
