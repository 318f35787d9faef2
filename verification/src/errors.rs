//! The failure taxonomy of the engine, and how a failure is rendered
//! into the transcript.

use vstd::prelude::*;
use vstd::string::*;

verus! {

/// Everything that can go wrong in a turn or in persistence.
///
/// `EmptyInput` is raised locally, before any request is built.
/// `Network` covers connect failures, `Protocol` a non-success status or
/// a malformed payload, `Timeout` a single wait that exceeded its
/// budget (with the underlying cause as detail), and `Cancelled` a
/// user-requested abort. `NoContext` and `Parse` belong to persistence:
/// saving with no continuation tokens, and a malformed integer in a
/// loaded header.
#[derive(Debug, PartialEq, Eq)]
pub enum EngineError {
    EmptyInput,
    Network(String),
    Protocol(String),
    Timeout(String),
    Cancelled,
    NoContext,
    Parse(String),
}

impl EngineError {
    /// The human-readable message of a failure.
    pub open spec fn spec_message(self) -> Seq<char> {
        match self {
            EngineError::EmptyInput => "empty question"@,
            EngineError::Network(m) => m@,
            EngineError::Protocol(m) => m@,
            EngineError::Timeout(m) => "Timeout waiting for Ollama Server:\n\n"@ + m@,
            EngineError::Cancelled => "Escape key pressed."@,
            EngineError::NoContext => "no context to save"@,
            EngineError::Parse(m) => "invalid context number: "@ + m@,
        }
    }

    /// Renders the message of this failure.
    pub fn message(&self) -> (r: String)
        ensures
            r@ == self.spec_message(),
    {
        match self {
            EngineError::EmptyInput => String::from_str("empty question"),
            EngineError::Network(m) => m.clone(),
            EngineError::Protocol(m) => m.clone(),
            EngineError::Timeout(m) => String::from_str(
                "Timeout waiting for Ollama Server:\n\n",
            ).concat(m.as_str()),
            EngineError::Cancelled => String::from_str("Escape key pressed."),
            EngineError::NoContext => String::from_str("no context to save"),
            EngineError::Parse(m) => String::from_str("invalid context number: ").concat(
                m.as_str(),
            ),
        }
    }
}

/// The error block appended to the transcript when a turn fails: a
/// Markdown heading followed by the failure's message.
pub open spec fn spec_error_block(e: EngineError) -> Seq<char> {
    "\n## ERROR:\n"@ + e.spec_message()
}

/// Renders the transcript error block for a failure.
pub fn error_block(e: &EngineError) -> (r: String)
    ensures
        r@ == spec_error_block(*e),
{
    String::from_str("\n## ERROR:\n").concat(e.message().as_str())
}

} // verus!
