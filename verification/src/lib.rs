//! Command interpreter for a GPIO pin-control command line: parses process
//! arguments into a typed command, validates the enumerated option values,
//! and plans the ordered, fail-fast pin operations that a hardware layer
//! carries out.

pub mod command;
pub mod dispatch;
pub mod errors;
pub mod tokens;
