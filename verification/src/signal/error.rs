//! Error type shared by the signal primitives.

use vstd::prelude::*;
use vstd::string::*;

use crate::text;
use crate::text::push_decimal;

verus! {

/// Errors produced by the signal primitives.
#[derive(Debug)]
#[non_exhaustive]
pub enum Error {
    /// A caller passed a buffer whose length does not match the contract.
    BufferLength {
        /// Length the callee requires.
        expected: usize,
        /// Length the caller supplied.
        actual: usize,
    },
    /// A stage was configured with parameters it cannot support.
    InvalidConfiguration(String),
    /// A stage failed while processing a block.
    Stage(String),
}

impl Error {
    /// The text shown to a user.
    pub open spec fn spec_message(&self) -> Seq<char> {
        match self {
            Error::BufferLength { expected, actual } => "buffer length mismatch: expected "@
                + text::decimal(*expected as nat) + " samples, got "@
                + text::decimal(*actual as nat),
            Error::InvalidConfiguration(reason) => "invalid configuration: "@ + reason@,
            Error::Stage(reason) => "stage failed: "@ + reason@,
        }
    }

    /// Describes the failure in one line.
    pub fn message(&self) -> (text: String)
        ensures
            text@ == self.spec_message(),
    {
        match self {
            Error::BufferLength { expected, actual } => {
                let mut text = "buffer length mismatch: expected ".to_owned();
                push_decimal(&mut text, *expected as u64);
                text.append(" samples, got ");
                push_decimal(&mut text, *actual as u64);
                text
            },
            Error::InvalidConfiguration(reason) => {
                let mut text = "invalid configuration: ".to_owned();
                text.append(reason.as_str());
                text
            },
            Error::Stage(reason) => {
                let mut text = "stage failed: ".to_owned();
                text.append(reason.as_str());
                text
            },
        }
    }
}

/// A message about lengths names the expected one first and ends with the one that
/// came.
pub proof fn law_lengths_are_told_in_order(expected: usize, actual: usize)
    ensures
        ({
            let error = Error::BufferLength { expected, actual };
            &&& text::stands_behind(
                error.spec_message(),
                Seq::empty(),
                "buffer length mismatch: expected "@,
                text::decimal(expected as nat),
            )
            &&& text::ends_with(error.spec_message(), text::decimal(actual as nat))
        }),
{
    text::lemma_message_of_four(
        "buffer length mismatch: expected "@,
        text::decimal(expected as nat),
        " samples, got "@,
        text::decimal(actual as nat),
    );
}

} // verus!
