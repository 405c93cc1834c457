//! The error taxonomy: what can go wrong while parsing arguments, and what
//! the hardware can report while dispatching.

use vstd::prelude::*;

verus! {

/// A reason the argument list could not be turned into a command.
#[derive(Clone, Copy, Debug, PartialEq, Eq, Structural)]
pub enum ParseError {
    /// The first argument names neither known subcommand.
    UnknownSubcommand,
    /// The mode token of `setup` matches no pin mode.
    InvalidMode,
    /// The value token of `test` matches no logic value.
    InvalidValue,
    /// A `--pull` option carries no token or one that matches no pull mode.
    InvalidPull,
    /// A pin token is not a small unsigned integer.
    InvalidPin,
    /// `setup` configures inputs but no `--pull` option was given.
    MissingRequiredOption,
}

/// A failure reported by the pin controller while dispatching.
#[derive(Clone, Copy, Debug, PartialEq, Eq, Structural)]
pub enum HardwareError {
    /// The GPIO device itself could not be opened.
    DeviceOpenFailed,
    /// A pin could not be acquired from the device.
    AcquisitionFailed,
}

} // verus!
