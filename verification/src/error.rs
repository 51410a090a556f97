//! The ways in which assembling the document can fail.

use vstd::prelude::*;
use vstd::string::StringExecFns;

verus! {

/// Why no document was produced. Every failure is final: nothing is retried
/// and no value is replaced by a default.
#[derive(Clone, Copy, Debug, PartialEq, Eq, Structural)]
pub enum AssembleError {
    /// A required input file does not exist.
    NotFound,
    /// An input file exists but could not be read.
    IoError,
    /// The upstream document lacks `secret`, `nullifier` or both.
    MissingField,
    /// The system clock reports a time before the Unix epoch.
    ClockError,
}

impl AssembleError {
    /// The text that `message` returns.
    pub open spec fn message_text(self) -> Seq<char> {
        match self {
            AssembleError::NotFound => "a required input file does not exist"@,
            AssembleError::IoError => "an input file could not be read"@,
            AssembleError::MissingField => "Missing secret or nullifier in Prover.toml"@,
            AssembleError::ClockError => "the system clock is set before the Unix epoch"@,
        }
    }

    /// A description of the failure for the person who ran the program.
    pub fn message(&self) -> (text: String)
        ensures
            text@ == self.message_text(),
    {
        match self {
            AssembleError::NotFound => String::from_str("a required input file does not exist"),
            AssembleError::IoError => String::from_str("an input file could not be read"),
            AssembleError::MissingField => String::from_str(
                "Missing secret or nullifier in Prover.toml",
            ),
            AssembleError::ClockError => String::from_str(
                "the system clock is set before the Unix epoch",
            ),
        }
    }
}

/// A text or the failure to get it, with the text as a sequence of
/// characters.
pub open spec fn outcome_view(outcome: Result<String, AssembleError>) -> Result<
    Seq<char>,
    AssembleError,
> {
    match outcome {
        Ok(text) => Ok(text@),
        Err(e) => Err(e),
    }
}

} // verus!
