//! The order of the engine calls that write a kernel file.
//!
//! The caller performs one command at a time and reports whether the engine
//! has flagged a failure; `after` decides what comes next. A kernel is opened
//! once, receives its segments in order, and is closed once. A failed open
//! ends the write before any segment is appended. A failure found after the
//! appends ends the write without closing the file.

use vstd::prelude::*;
use crate::error::SpiceError;

verus! {

/// One call into the engine.
#[derive(Debug)]
pub enum Command {
    /// Set the engine's error policy to return with a short diagnostic.
    Prepare,
    /// Open a new kernel file.
    Open,
    /// Append the segment with this index.
    Append(usize),
    /// Close the kernel file.
    Close,
}

/// How a write goes on after a command.
#[derive(Debug)]
pub enum Progress {
    /// The command to perform next.
    Next(Command),
    /// The write has ended with this result.
    Finished(Result<(), SpiceError>),
}

/// What follows `command` in the write of a kernel of `segments` segments.
/// `failure` is the engine's short diagnostic if its failure flag is set
/// after the command. The flag is not looked at after setting the error
/// policy, nor after an append that is not the last.
pub open spec fn progress_after(command: Command, segments: int, failure: Option<String>) -> Progress {
    match command {
        Command::Prepare => Progress::Next(Command::Open),
        Command::Open => match failure {
            Some(diagnostic) => Progress::Finished(Err(SpiceError::KernelOpen { diagnostic })),
            None => if segments > 0 {
                Progress::Next(Command::Append(0))
            } else {
                Progress::Next(Command::Close)
            },
        },
        Command::Append(index) => if index + 1 < segments {
            Progress::Next(Command::Append((index + 1) as usize))
        } else {
            match failure {
                Some(diagnostic) => Progress::Finished(
                    Err(SpiceError::SegmentWrite { diagnostic }),
                ),
                None => Progress::Next(Command::Close),
            }
        },
        Command::Close => match failure {
            Some(diagnostic) => Progress::Finished(Err(SpiceError::KernelClose { diagnostic })),
            None => Progress::Finished(Ok(())),
        },
    }
}

/// The commands of a write during which the engine never flags a failure.
pub open spec fn clean_script(segments: int) -> Seq<Command> {
    Seq::new(
        (segments + 3) as nat,
        |i: int|
            if i == 0 {
                Command::Prepare
            } else if i == 1 {
                Command::Open
            } else if i < segments + 2 {
                Command::Append((i - 2) as usize)
            } else {
                Command::Close
            },
    )
}

/// While the engine flags no failure, a write sets the error policy, opens
/// the file, appends every segment once and in order, closes the file, and
/// succeeds.
pub proof fn lemma_clean_write(segments: usize)
    ensures
        forall|i: int|
            0 <= i < segments + 2 ==> progress_after(
                #[trigger] clean_script(segments as int)[i],
                segments as int,
                None,
            ) == Progress::Next(clean_script(segments as int)[i + 1]),
        progress_after(clean_script(segments as int)[segments + 2], segments as int, None)
            == Progress::Finished(Ok(())),
{
}

/// Whatever the engine flags, the commands of a write are an initial part of
/// the clean script: the file is opened at most once, the segments are
/// appended in order, each at most once, and the file is closed at most
/// once, after the last segment.
pub proof fn lemma_write_follows_script(segments: usize, step: int, failure: Option<String>)
    requires
        0 <= step < segments + 3,
    ensures
        progress_after(clean_script(segments as int)[step], segments as int, failure)
            is Finished || (step < segments + 2 && progress_after(
            clean_script(segments as int)[step],
            segments as int,
            failure,
        ) == Progress::Next(clean_script(segments as int)[step + 1])),
{
}

/// A flagged failure ends the write: after a failed open nothing is
/// appended, after failed appends the file is not closed, and each failure
/// carries the engine's diagnostic.
pub proof fn lemma_failure_ends_write(segments: usize, diagnostic: String)
    ensures
        progress_after(Command::Open, segments as int, Some(diagnostic)) == Progress::Finished(
            Err(SpiceError::KernelOpen { diagnostic }),
        ),
        forall|index: usize|
            index + 1 >= segments ==> #[trigger] progress_after(
                Command::Append(index),
                segments as int,
                Some(diagnostic),
            ) == Progress::Finished(Err(SpiceError::SegmentWrite { diagnostic })),
        progress_after(Command::Close, segments as int, Some(diagnostic)) == Progress::Finished(
            Err(SpiceError::KernelClose { diagnostic }),
        ),
{
}

/// The command that starts every write.
pub fn first_command() -> (command: Command)
    ensures
        command == Command::Prepare,
{
    Command::Prepare
}

/// Decides what follows `command`, given the failure that the engine flags
/// after it, if any.
pub fn after(command: Command, segments: usize, failure: Option<String>) -> (progress: Progress)
    ensures
        progress == progress_after(command, segments as int, failure),
{
    match command {
        Command::Prepare => Progress::Next(Command::Open),
        Command::Open => match failure {
            Some(diagnostic) => Progress::Finished(Err(SpiceError::KernelOpen { diagnostic })),
            None => if segments > 0 {
                Progress::Next(Command::Append(0))
            } else {
                Progress::Next(Command::Close)
            },
        },
        Command::Append(index) => if segments > 0 && index < segments - 1 {
            Progress::Next(Command::Append(index + 1))
        } else {
            match failure {
                Some(diagnostic) => Progress::Finished(
                    Err(SpiceError::SegmentWrite { diagnostic }),
                ),
                None => Progress::Next(Command::Close),
            }
        },
        Command::Close => match failure {
            Some(diagnostic) => Progress::Finished(Err(SpiceError::KernelClose { diagnostic })),
            None => Progress::Finished(Ok(())),
        },
    }
}

} // verus!
