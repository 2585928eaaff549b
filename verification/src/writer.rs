//! The order of the steps that persist a document, and which of their
//! failures count: the backup and the cache flush are made for effect only,
//! the write alone decides.
use vstd::prelude::*;
use crate::error::{write_failure_text, HostsError, WriteFailureReason};

verus! {

/// A step of persisting a document.
#[derive(Clone, Copy, Debug, PartialEq, Eq, Structural)]
pub enum WriteStep {
    /// Copy the current table to the backup path.
    Backup,
    /// Write the new document to the table's path.
    Write,
    /// Ask the name caches to forget what they hold.
    FlushCaches,
    /// Nothing is left to do.
    Done,
}

/// How a step ended.
#[derive(Clone, Copy, Debug, PartialEq, Eq, Structural)]
pub enum Outcome {
    Succeeded,
    /// The step failed for want of privilege.
    Denied,
    /// The step failed for any other reason.
    Failed,
}

/// What follows `step` once it ended with `outcome`: the next step, or the
/// failure that ends the operation. Only a write that did not succeed fails.
pub open spec fn following(step: WriteStep, outcome: Outcome) -> Result<WriteStep, HostsError> {
    match step {
        WriteStep::Backup => Ok(WriteStep::Write),
        WriteStep::Write => match outcome {
            Outcome::Succeeded => Ok(WriteStep::FlushCaches),
            Outcome::Denied => Err(
                HostsError::WriteFailure { reason: WriteFailureReason::Permission },
            ),
            Outcome::Failed => Err(HostsError::WriteFailure { reason: WriteFailureReason::Io }),
        },
        WriteStep::FlushCaches => Ok(WriteStep::Done),
        WriteStep::Done => Ok(WriteStep::Done),
    }
}

/// How persisting ends when its three steps end with the given outcomes.
pub open spec fn persisted(backup: Outcome, write: Outcome, flush: Outcome) -> Result<
    WriteStep,
    HostsError,
> {
    match following(WriteStep::Backup, backup) {
        Err(e) => Err(e),
        Ok(second) => match following(second, write) {
            Err(e) => Err(e),
            Ok(third) => following(third, flush),
        },
    }
}

/// The step that persisting starts with.
pub fn first_step() -> (step: WriteStep)
    ensures
        step == WriteStep::Backup,
{
    WriteStep::Backup
}

/// Decides what follows `step` once it ended with `outcome`.
pub fn next_step(step: WriteStep, outcome: Outcome) -> (next: Result<WriteStep, HostsError>)
    ensures
        next == following(step, outcome),
{
    match step {
        WriteStep::Backup => Ok(WriteStep::Write),
        WriteStep::Write => match outcome {
            Outcome::Succeeded => Ok(WriteStep::FlushCaches),
            Outcome::Denied => Err(
                HostsError::WriteFailure { reason: WriteFailureReason::Permission },
            ),
            Outcome::Failed => Err(HostsError::WriteFailure { reason: WriteFailureReason::Io }),
        },
        WriteStep::FlushCaches => Ok(WriteStep::Done),
        WriteStep::Done => Ok(WriteStep::Done),
    }
}

/// Persisting succeeds exactly when the write succeeds, whatever becomes of
/// the backup and of the cache flush; a failed write ends it before the
/// flush, with the reason of that failure.
pub proof fn law_only_write_decides(backup: Outcome, write: Outcome, flush: Outcome)
    ensures
        write == Outcome::Succeeded <==> persisted(backup, write, flush) == Ok::<
            WriteStep,
            HostsError,
        >(WriteStep::Done),
        write == Outcome::Denied <==> persisted(backup, write, flush) == Err::<
            WriteStep,
            HostsError,
        >(HostsError::WriteFailure { reason: WriteFailureReason::Permission }),
        write == Outcome::Failed <==> persisted(backup, write, flush) == Err::<
            WriteStep,
            HostsError,
        >(HostsError::WriteFailure { reason: WriteFailureReason::Io }),
{
}

/// A write that does not succeed ends persisting with a failure whose
/// message names the table's path and gives the hint to elevate privileges,
/// whatever became of the backup; the cache flush is not reached.
pub proof fn law_failed_write_message(backup: Outcome, write: Outcome, flush: Outcome)
    requires
        write != Outcome::Succeeded,
    ensures
        persisted(backup, write, flush) matches Err(e) && e.message_text() == write_failure_text(),
        following(WriteStep::Write, write) is Err,
{
}

} // verus!
