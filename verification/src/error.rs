//! The failures that the pipeline reports.

use vstd::prelude::*;
use vstd::string::StringExecFns;
use crate::text::decimal_text;
use crate::text::push_decimal;

verus! {

/// The error action that makes the engine return to its caller on failure.
pub const ERROR_ACTION: &'static str = "return";

/// The kind of message that the engine is asked for after a failure.
pub const ERROR_MESSAGE: &'static str = "short";

/// The size of the buffer in which the engine's message is fetched. The
/// engine cuts a longer message to one character less than this.
pub const DIAGNOSTIC_BUFFER: i32 = 50;

/// A failure of one pipeline call. Every failure is terminal for the call
/// that produced it. A `diagnostic` is the engine's short message, which the
/// engine itself cuts to at most 49 characters.
#[derive(Debug)]
pub enum SpiceError {
    /// The retention fraction is not within `(0, 1]`.
    InvalidFraction,
    /// The engine knows no body of this name.
    NotFound { name: String },
    /// The gravitational parameter of `body` could not be retrieved.
    ConstantUnavailable { body: i32, diagnostic: String },
    /// The state of `body` relative to `observer` at `epoch` could not be
    /// retrieved. The epoch is held as its decimal text.
    StateUnavailable { body: i32, observer: i32, epoch: String, diagnostic: String },
    /// The kernel file could not be opened for writing.
    KernelOpen { diagnostic: String },
    /// The engine reported a failure after the segments were appended.
    SegmentWrite { diagnostic: String },
    /// The kernel file could not be closed.
    KernelClose { diagnostic: String },
}

impl SpiceError {
    /// The message shown to the user: the operation that failed, the
    /// identifiers involved, and the engine's diagnostic where there is one.
    pub open spec fn message_text(self) -> Seq<char> {
        match self {
            SpiceError::InvalidFraction => "Please supply a fraction_to_save value between 0 and 1"@,
            SpiceError::NotFound { name } => "Body '"@ + name@ + "' not found in kernel pool"@,
            SpiceError::ConstantUnavailable { body, diagnostic } =>
                "Could not retrieve standard gravitational parameter for body "@ + decimal_text(
                    body as int,
                ) + ": "@ + diagnostic@,
            SpiceError::StateUnavailable { body, observer, epoch, diagnostic } =>
                "State for body "@ + decimal_text(body as int) + " relative to "@ + decimal_text(
                    observer as int,
                ) + " at "@ + epoch@ + " could not be retrieved: "@ + diagnostic@,
            SpiceError::KernelOpen { diagnostic } => "Failed to open SPK file for writing: "@
                + diagnostic@,
            SpiceError::SegmentWrite { diagnostic } => "Failed to write to SPK file: "@
                + diagnostic@,
            SpiceError::KernelClose { diagnostic } => "Failed to close SPK file after writing: "@
                + diagnostic@,
        }
    }

    /// Builds the message shown to the user.
    pub fn message(&self) -> (text: String)
        ensures
            text@ == self.message_text(),
    {
        match self {
            SpiceError::InvalidFraction => String::from_str(
                "Please supply a fraction_to_save value between 0 and 1",
            ),
            SpiceError::NotFound { name } => {
                let mut text = String::from_str("Body '");
                text.append(name.as_str());
                text.append("' not found in kernel pool");
                text
            },
            SpiceError::ConstantUnavailable { body, diagnostic } => {
                let mut text = String::from_str(
                    "Could not retrieve standard gravitational parameter for body ",
                );
                push_decimal(&mut text, *body);
                text.append(": ");
                text.append(diagnostic.as_str());
                text
            },
            SpiceError::StateUnavailable { body, observer, epoch, diagnostic } => {
                let mut text = String::from_str("State for body ");
                push_decimal(&mut text, *body);
                text.append(" relative to ");
                push_decimal(&mut text, *observer);
                text.append(" at ");
                text.append(epoch.as_str());
                text.append(" could not be retrieved: ");
                text.append(diagnostic.as_str());
                text
            },
            SpiceError::KernelOpen { diagnostic } => {
                let mut text = String::from_str("Failed to open SPK file for writing: ");
                text.append(diagnostic.as_str());
                text
            },
            SpiceError::SegmentWrite { diagnostic } => {
                let mut text = String::from_str("Failed to write to SPK file: ");
                text.append(diagnostic.as_str());
                text
            },
            SpiceError::KernelClose { diagnostic } => {
                let mut text = String::from_str("Failed to close SPK file after writing: ");
                text.append(diagnostic.as_str());
                text
            },
        }
    }

    /// A copy of the failure.
    pub fn duplicate(&self) -> (copy: SpiceError)
        ensures
            copy == *self,
    {
        match self {
            SpiceError::InvalidFraction => SpiceError::InvalidFraction,
            SpiceError::NotFound { name } => SpiceError::NotFound { name: name.clone() },
            SpiceError::ConstantUnavailable { body, diagnostic } => SpiceError::ConstantUnavailable {
                body: *body,
                diagnostic: diagnostic.clone(),
            },
            SpiceError::StateUnavailable { body, observer, epoch, diagnostic } =>
                SpiceError::StateUnavailable {
                    body: *body,
                    observer: *observer,
                    epoch: epoch.clone(),
                    diagnostic: diagnostic.clone(),
                },
            SpiceError::KernelOpen { diagnostic } => SpiceError::KernelOpen {
                diagnostic: diagnostic.clone(),
            },
            SpiceError::SegmentWrite { diagnostic } => SpiceError::SegmentWrite {
                diagnostic: diagnostic.clone(),
            },
            SpiceError::KernelClose { diagnostic } => SpiceError::KernelClose {
                diagnostic: diagnostic.clone(),
            },
        }
    }
}

} // verus!
