//! Why a wire line failed to decode into a command.

use vstd::prelude::*;

verus! {

/// A command decode failure, resolved before anything reaches the store.
#[derive(Clone, Copy, Debug, PartialEq, Eq, Structural)]
pub enum CommandError {
    /// No input was given.
    NoInput,
    /// The command word takes a different number of arguments.
    ArgumentMismatch,
    /// The command word is not known.
    Unknown,
    /// `MODE` names neither `GLOB` nor `REGEX`.
    NoValidModeSpecified,
    /// `TTL` was given seconds that do not parse as a non-negative count.
    InvalidTtlSpecified,
}

} // verus!
