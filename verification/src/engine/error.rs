//! Errors of the live engine.

use vstd::prelude::*;
use vstd::string::*;

use crate::signal;

verus! {

/// Errors produced by the live engine.
#[derive(Debug)]
#[non_exhaustive]
pub enum Error {
    /// A stage could not be adapted to the host format.
    Core(signal::error::Error),
    /// Switches are being requested faster than they complete.
    SwitchInFlight,
    /// The engine is not running.
    NotRunning,
    /// The engine is already running.
    AlreadyRunning,
    /// The configuration cannot be used.
    InvalidConfiguration(String),
}

impl Error {
    /// The text shown to a user.
    pub open spec fn spec_message(&self) -> Seq<char> {
        match self {
            Error::Core(error) => error.spec_message(),
            Error::SwitchInFlight =>
                "a stage switch is already in flight; try again once the ramp completes"@,
            Error::NotRunning => "the engine is not running"@,
            Error::AlreadyRunning => "the engine is already running"@,
            Error::InvalidConfiguration(reason) => "invalid configuration: "@ + reason@,
        }
    }

    /// Describes the failure in one line.
    pub fn message(&self) -> (text: String)
        ensures
            text@ == self.spec_message(),
    {
        match self {
            Error::Core(error) => error.message(),
            Error::SwitchInFlight =>
                "a stage switch is already in flight; try again once the ramp completes".to_owned(),
            Error::NotRunning => "the engine is not running".to_owned(),
            Error::AlreadyRunning => "the engine is already running".to_owned(),
            Error::InvalidConfiguration(reason) => {
                let mut text = "invalid configuration: ".to_owned();
                text.append(reason.as_str());
                text
            },
        }
    }
}

} // verus!
