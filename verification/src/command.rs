//! Turning the process argument list into a validated command.
//!
//! The grammar has two subcommands. `setup` takes a pin-mode token, then pin
//! numbers, with the flags `-r`/`--reset-on-drop` and `-p`/`--pull <token>`;
//! when the mode is `Input` the pull option is required. `test` takes a
//! logic-value token, then pin numbers, with `-r`/`--reset-on-drop`.

use vstd::prelude::*;
use vstd::string::StrSliceExecFns;
use crate::errors::ParseError;
use crate::tokens::{LogicValue, PinMode, PullMode};
use crate::tokens::{spec_parse_logic_value, spec_parse_pin_mode, spec_parse_pull_mode, str_eq_lit};

verus! {

/// A validated invocation, ready to dispatch. Pin numbers keep the order and
/// multiplicity they were given in.
#[derive(Debug, PartialEq, Eq)]
pub enum Command {
    Setup { mode: PinMode, pins: Vec<u8>, reset_on_drop: bool, pull: Option<PullMode> },
    Test { value: LogicValue, pins: Vec<u8>, reset_on_drop: bool },
}

/// The mathematical image of a `Command`, with the pin list as a sequence.
pub enum CommandView {
    Setup { mode: PinMode, pins: Seq<u8>, reset_on_drop: bool, pull: Option<PullMode> },
    Test { value: LogicValue, pins: Seq<u8>, reset_on_drop: bool },
}

impl View for Command {
    type V = CommandView;

    open spec fn view(&self) -> CommandView {
        match self {
            Command::Setup { mode, pins, reset_on_drop, pull } => CommandView::Setup {
                mode: *mode,
                pins: pins@,
                reset_on_drop: *reset_on_drop,
                pull: *pull,
            },
            Command::Test { value, pins, reset_on_drop } => CommandView::Test {
                value: *value,
                pins: pins@,
                reset_on_drop: *reset_on_drop,
            },
        }
    }
}

/// A parse outcome lifted to the mathematical level.
pub open spec fn res_view(r: Result<Command, ParseError>) -> Result<CommandView, ParseError> {
    match r {
        Ok(c) => Ok(c@),
        Err(e) => Err(e),
    }
}

/// True of ASCII decimal digits.
pub open spec fn is_digit(c: char) -> bool {
    '0' <= c && c <= '9'
}

/// True if every character of the sequence is a decimal digit.
pub open spec fn all_digits(s: Seq<char>) -> bool {
    forall|i: int| 0 <= i < s.len() ==> is_digit(s[i])
}

/// The number the digit sequence denotes in decimal.
pub open spec fn dec_val(s: Seq<char>) -> int
    decreases s.len(),
{
    if s.len() == 0 {
        0
    } else {
        dec_val(s.drop_last()) * 10 + ((s.last() as u32) - 48)
    }
}

/// The sequence with one leading plus sign removed.
pub open spec fn strip_plus(s: Seq<char>) -> Seq<char> {
    if s.len() > 0 && s[0] == '+' {
        s.skip(1)
    } else {
        s
    }
}

/// What parsing a pin token yields: a pin number for a decimal token
/// (one optional leading `+`) whose value fits in eight bits, nothing else.
pub open spec fn spec_parse_pin(s: Seq<char>) -> Option<u8> {
    let d = strip_plus(s);
    if d.len() > 0 && all_digits(d) && dec_val(d) <= 255 {
        Some(dec_val(d) as u8)
    } else {
        None
    }
}

proof fn lemma_dec_val_nonneg(s: Seq<char>)
    requires
        all_digits(s),
    ensures
        dec_val(s) >= 0,
    decreases s.len(),
{
    if s.len() > 0 {
        assert(all_digits(s.drop_last()));
        lemma_dec_val_nonneg(s.drop_last());
    }
}

proof fn lemma_dec_val_step(s: Seq<char>, k: int)
    requires
        0 <= k < s.len(),
    ensures
        dec_val(s.take(k + 1)) == dec_val(s.take(k)) * 10 + ((s[k] as u32) - 48),
{
    assert(s.take(k + 1).drop_last() =~= s.take(k));
    assert(s.take(k + 1).last() == s[k]);
}

proof fn lemma_dec_val_grows(s: Seq<char>, k: int)
    requires
        all_digits(s),
        0 <= k <= s.len(),
        dec_val(s.take(k)) > 255,
    ensures
        dec_val(s) > 255,
    decreases s.len() - k,
{
    if k == s.len() {
        assert(s.take(k) =~= s);
    } else {
        lemma_dec_val_step(s, k);
        assert(dec_val(s.take(k + 1)) > 255);
        lemma_dec_val_grows(s, k + 1);
    }
}

/// Parses a pin token: the pin number for a decimal token whose value fits
/// in eight bits, `None` for anything else.
pub fn parse_pin(s: &str) -> (r: Option<u8>)
    ensures
        r == spec_parse_pin(s@),
{
    let n = s.unicode_len();
    let mut i: usize = 0;
    if n > 0 && s.get_char(0) == '+' {
        i = 1;
    }
    let ghost d = strip_plus(s@);
    proof {
        assert(d =~= s@.skip(i as int));
    }
    if i >= n {
        return None;
    }
    let mut acc: u32 = 0;
    let mut j: usize = i;
    while j < n
        invariant
            0 <= i <= j <= n == s@.len(),
            i < n,
            d == strip_plus(s@),
            d == s@.skip(i as int),
            d.len() == n - i,
            forall|k: int| 0 <= k < j - i ==> is_digit(d[k]),
            acc as int == dec_val(d.take(j - i)),
            acc <= 255,
        decreases n - j,
    {
        let c = s.get_char(j);
        if !('0' <= c && c <= '9') {
            proof {
                assert(d[j - i] == c);
                assert(!all_digits(d));
            }
            return None;
        }
        let dv: u32 = (c as u32) - 48;
        acc = acc * 10 + dv;
        proof {
            lemma_dec_val_step(d, j - i);
            assert(d[j - i] == s@[j as int]);
        }
        if acc > 255 {
            proof {
                if all_digits(d) {
                    lemma_dec_val_grows(d, j - i + 1);
                }
            }
            return None;
        }
        j = j + 1;
    }
    proof {
        assert(d.take(n - i) =~= d);
        assert(all_digits(d));
        lemma_dec_val_nonneg(d);
    }
    Some(acc as u8)
}

/// What scanning the rest of a `setup` invocation yields, given the tokens
/// already folded into the accumulators. Flags may stand anywhere; the first
/// positional token is the mode, later ones are pins; each error is reported
/// for the first token that forces it, and a missing required pull option is
/// reported once the whole list is read.
pub open spec fn scan_setup(
    args: Seq<Seq<char>>,
    i: int,
    mode: Option<PinMode>,
    pins: Seq<u8>,
    reset: bool,
    pull: Option<PullMode>,
) -> Result<CommandView, ParseError>
    decreases args.len() - i,
{
    if i < 0 || i >= args.len() {
        match mode {
            None => Err(ParseError::InvalidMode),
            Some(m) => if m is Input && pull is None {
                Err(ParseError::MissingRequiredOption)
            } else {
                Ok(CommandView::Setup { mode: m, pins: pins, reset_on_drop: reset, pull: pull })
            },
        }
    } else {
        let t = args[i];
        if t == "-r"@ || t == "--reset-on-drop"@ {
            scan_setup(args, i + 1, mode, pins, true, pull)
        } else if t == "-p"@ || t == "--pull"@ {
            if i + 1 >= args.len() {
                Err(ParseError::InvalidPull)
            } else {
                match spec_parse_pull_mode(args[i + 1]) {
                    Ok(p) => scan_setup(args, i + 2, mode, pins, reset, Some(p)),
                    Err(_) => Err(ParseError::InvalidPull),
                }
            }
        } else if mode is None {
            match spec_parse_pin_mode(t) {
                Ok(m) => scan_setup(args, i + 1, Some(m), pins, reset, pull),
                Err(_) => Err(ParseError::InvalidMode),
            }
        } else {
            match spec_parse_pin(t) {
                Some(p) => scan_setup(args, i + 1, mode, pins.push(p), reset, pull),
                None => Err(ParseError::InvalidPin),
            }
        }
    }
}

/// What scanning the rest of a `test` invocation yields. The flag may stand
/// anywhere; the first positional token is the logic value, later ones pins.
pub open spec fn scan_test(
    args: Seq<Seq<char>>,
    i: int,
    value: Option<LogicValue>,
    pins: Seq<u8>,
    reset: bool,
) -> Result<CommandView, ParseError>
    decreases args.len() - i,
{
    if i < 0 || i >= args.len() {
        match value {
            None => Err(ParseError::InvalidValue),
            Some(v) => Ok(CommandView::Test { value: v, pins: pins, reset_on_drop: reset }),
        }
    } else {
        let t = args[i];
        if t == "-r"@ || t == "--reset-on-drop"@ {
            scan_test(args, i + 1, value, pins, true)
        } else if value is None {
            match spec_parse_logic_value(t) {
                Ok(v) => scan_test(args, i + 1, Some(v), pins, reset),
                Err(_) => Err(ParseError::InvalidValue),
            }
        } else {
            match spec_parse_pin(t) {
                Some(p) => scan_test(args, i + 1, value, pins.push(p), reset),
                None => Err(ParseError::InvalidPin),
            }
        }
    }
}

/// What parsing a whole argument list (without the program name) yields.
pub open spec fn spec_parse(args: Seq<Seq<char>>) -> Result<CommandView, ParseError> {
    if args.len() == 0 {
        Err(ParseError::UnknownSubcommand)
    } else if args[0] == "setup"@ {
        scan_setup(args, 1, None, Seq::empty(), false, None)
    } else if args[0] == "test"@ {
        scan_test(args, 1, None, Seq::empty(), false)
    } else {
        Err(ParseError::UnknownSubcommand)
    }
}

/// The data-model invariant of a command: a setup of inputs always carries a
/// pull configuration.
pub open spec fn spec_command_wf(c: CommandView) -> bool {
    match c {
        CommandView::Setup { mode, pull, .. } => mode is Input ==> pull is Some,
        CommandView::Test { .. } => true,
    }
}

proof fn lemma_scan_setup_wf(
    args: Seq<Seq<char>>,
    i: int,
    mode: Option<PinMode>,
    pins: Seq<u8>,
    reset: bool,
    pull: Option<PullMode>,
)
    ensures
        scan_setup(args, i, mode, pins, reset, pull) matches Ok(cv) ==> spec_command_wf(cv),
    decreases args.len() - i,
{
    if 0 <= i < args.len() {
        let t = args[i];
        if t == "-r"@ || t == "--reset-on-drop"@ {
            lemma_scan_setup_wf(args, i + 1, mode, pins, true, pull);
        } else if t == "-p"@ || t == "--pull"@ {
            if i + 1 < args.len() {
                match spec_parse_pull_mode(args[i + 1]) {
                    Ok(p) => lemma_scan_setup_wf(args, i + 2, mode, pins, reset, Some(p)),
                    Err(_) => {},
                }
            }
        } else if mode is None {
            match spec_parse_pin_mode(t) {
                Ok(m) => lemma_scan_setup_wf(args, i + 1, Some(m), pins, reset, pull),
                Err(_) => {},
            }
        } else {
            match spec_parse_pin(t) {
                Some(p) => lemma_scan_setup_wf(args, i + 1, mode, pins.push(p), reset, pull),
                None => {},
            }
        }
    }
}

proof fn lemma_scan_test_wf(
    args: Seq<Seq<char>>,
    i: int,
    value: Option<LogicValue>,
    pins: Seq<u8>,
    reset: bool,
)
    ensures
        scan_test(args, i, value, pins, reset) matches Ok(cv) ==> spec_command_wf(cv),
    decreases args.len() - i,
{
    if 0 <= i < args.len() {
        let t = args[i];
        if t == "-r"@ || t == "--reset-on-drop"@ {
            lemma_scan_test_wf(args, i + 1, value, pins, true);
        } else if value is None {
            match spec_parse_logic_value(t) {
                Ok(v) => lemma_scan_test_wf(args, i + 1, Some(v), pins, reset),
                Err(_) => {},
            }
        } else {
            match spec_parse_pin(t) {
                Some(p) => lemma_scan_test_wf(args, i + 1, value, pins.push(p), reset),
                None => {},
            }
        }
    }
}

/// Every command the parser accepts satisfies the data-model invariant.
pub proof fn lemma_parse_commands_well_formed(args: Seq<Seq<char>>)
    ensures
        spec_parse(args) matches Ok(cv) ==> spec_command_wf(cv),
{
    if args.len() > 0 && args[0] == "setup"@ {
        lemma_scan_setup_wf(args, 1, None, Seq::empty(), false, None);
    } else if args.len() > 0 && args[0] == "test"@ {
        lemma_scan_test_wf(args, 1, None, Seq::empty(), false);
    }
}

fn parse_setup(args: &Vec<String>) -> (r: Result<Command, ParseError>)
    requires
        args@.len() >= 1,
    ensures
        res_view(r) == scan_setup(args.deep_view(), 1, None, Seq::empty(), false, None),
{
    let ghost av = args.deep_view();
    let mut i: usize = 1;
    let mut mode: Option<PinMode> = None;
    let mut pins: Vec<u8> = Vec::new();
    let mut reset: bool = false;
    let mut pull: Option<PullMode> = None;
    while i < args.len()
        invariant
            1 <= i <= args@.len(),
            av == args.deep_view(),
            av.len() == args@.len(),
            scan_setup(av, 1, None, Seq::empty(), false, None) == scan_setup(
                av,
                i as int,
                mode,
                pins@,
                reset,
                pull,
            ),
        decreases args@.len() - i,
    {
        let t: &String = &args[i];
        proof {
            assert(av[i as int] == t@);
        }
        if str_eq_lit(t.as_str(), "-r") || str_eq_lit(t.as_str(), "--reset-on-drop") {
            reset = true;
            i = i + 1;
        } else if str_eq_lit(t.as_str(), "-p") || str_eq_lit(t.as_str(), "--pull") {
            if i + 1 >= args.len() {
                return Err(ParseError::InvalidPull);
            }
            proof {
                assert(av[i + 1] == args@[i + 1]@);
            }
            match PullMode::parse(args[i + 1].as_str()) {
                Ok(p) => {
                    pull = Some(p);
                    i = i + 2;
                },
                Err(_) => {
                    return Err(ParseError::InvalidPull);
                },
            }
        } else if mode.is_none() {
            match PinMode::parse(t.as_str()) {
                Ok(m) => {
                    mode = Some(m);
                    i = i + 1;
                },
                Err(_) => {
                    return Err(ParseError::InvalidMode);
                },
            }
        } else {
            match parse_pin(t.as_str()) {
                Some(p) => {
                    pins.push(p);
                    i = i + 1;
                },
                None => {
                    return Err(ParseError::InvalidPin);
                },
            }
        }
    }
    match mode {
        None => Err(ParseError::InvalidMode),
        Some(m) => {
            if matches!(m, PinMode::Input) && pull.is_none() {
                Err(ParseError::MissingRequiredOption)
            } else {
                Ok(Command::Setup { mode: m, pins: pins, reset_on_drop: reset, pull: pull })
            }
        },
    }
}

fn parse_test(args: &Vec<String>) -> (r: Result<Command, ParseError>)
    requires
        args@.len() >= 1,
    ensures
        res_view(r) == scan_test(args.deep_view(), 1, None, Seq::empty(), false),
{
    let ghost av = args.deep_view();
    let mut i: usize = 1;
    let mut value: Option<LogicValue> = None;
    let mut pins: Vec<u8> = Vec::new();
    let mut reset: bool = false;
    while i < args.len()
        invariant
            1 <= i <= args@.len(),
            av == args.deep_view(),
            av.len() == args@.len(),
            scan_test(av, 1, None, Seq::empty(), false) == scan_test(
                av,
                i as int,
                value,
                pins@,
                reset,
            ),
        decreases args@.len() - i,
    {
        let t: &String = &args[i];
        proof {
            assert(av[i as int] == t@);
        }
        if str_eq_lit(t.as_str(), "-r") || str_eq_lit(t.as_str(), "--reset-on-drop") {
            reset = true;
            i = i + 1;
        } else if value.is_none() {
            match LogicValue::parse(t.as_str()) {
                Ok(v) => {
                    value = Some(v);
                    i = i + 1;
                },
                Err(_) => {
                    return Err(ParseError::InvalidValue);
                },
            }
        } else {
            match parse_pin(t.as_str()) {
                Some(p) => {
                    pins.push(p);
                    i = i + 1;
                },
                None => {
                    return Err(ParseError::InvalidPin);
                },
            }
        }
    }
    match value {
        None => Err(ParseError::InvalidValue),
        Some(v) => Ok(Command::Test { value: v, pins: pins, reset_on_drop: reset }),
    }
}

/// Parses the argument list (without the program name) into a command, or
/// says exactly why it is rejected.
pub fn parse(args: &Vec<String>) -> (r: Result<Command, ParseError>)
    ensures
        res_view(r) == spec_parse(args.deep_view()),
{
    let ghost av = args.deep_view();
    if args.len() == 0 {
        return Err(ParseError::UnknownSubcommand);
    }
    proof {
        assert(av[0] == args@[0]@);
    }
    if str_eq_lit(args[0].as_str(), "setup") {
        parse_setup(args)
    } else if str_eq_lit(args[0].as_str(), "test") {
        parse_test(args)
    } else {
        Err(ParseError::UnknownSubcommand)
    }
}

} // verus!
