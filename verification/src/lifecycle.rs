//! The life of a task on the worker: which phase follows which, and what
//! the worker has to do next.

use vstd::prelude::*;

verus! {

/// Where the worker stands.
#[derive(Debug, Clone, Copy, PartialEq, Eq, Structural)]
pub enum Phase {
    /// Between tasks, waiting for the next poll.
    Idle,
    /// Asking the service for a task.
    Fetching,
    /// Writing the prepared source of a task to its scratch file.
    Preparing,
    /// Waiting for the engine.
    Executing,
    /// Reading and rendering the counts.
    Aggregating,
    /// Submitting the report.
    Reporting,
    /// Removing the scratch files.
    Cleanup,
}

/// What happened since the last step.
#[derive(Debug, Clone, Copy, PartialEq, Eq, Structural)]
pub enum Event {
    /// The delay between two polls is over.
    DelayElapsed,
    /// The service had no task, or its answer could not be had or read.
    NoTask,
    /// The service handed out a task.
    TaskReceived,
    /// The source stands in its scratch file.
    SourceWritten,
    /// The source could not be written.
    WriteFailed,
    /// The engine exited with code zero.
    EngineSucceeded,
    /// The engine exited otherwise, or did not start.
    EngineFailed,
    /// The counts were read, well-formed or not, and the report is made.
    CountsRead,
    /// The report was sent, whatever the service answered, or could not be
    /// sent.
    ReportAttempted,
    /// The removal of the scratch files was tried, whatever came of it.
    FilesRemoved,
}

/// What the worker does next.
#[derive(Debug, Clone, Copy, PartialEq, Eq, Structural)]
pub enum Action {
    /// Wait for the delay between two polls.
    Wait,
    /// Ask the service for a task.
    Fetch,
    /// Prepare the task and write its source.
    WriteSource,
    /// Start the engine and wait for it.
    RunEngine,
    /// Read the counts and make the report of a finished task.
    ReadCounts,
    /// Make the report of a failed run and submit it.
    SubmitFailure,
    /// Submit the report made from the counts.
    SubmitReport,
    /// Remove the scratch files of the task.
    RemoveFiles,
    /// Nothing: the event does not belong to the phase.
    Nothing,
}

/// The phase that follows `phase` on `event`, and what is to be done then.
/// An event that does not belong to the phase changes nothing.
pub open spec fn step(phase: Phase, event: Event) -> (Phase, Action) {
    match (phase, event) {
        (Phase::Idle, Event::DelayElapsed) => (Phase::Fetching, Action::Fetch),
        (Phase::Fetching, Event::NoTask) => (Phase::Idle, Action::Wait),
        (Phase::Fetching, Event::TaskReceived) => (Phase::Preparing, Action::WriteSource),
        (Phase::Preparing, Event::SourceWritten) => (Phase::Executing, Action::RunEngine),
        (Phase::Preparing, Event::WriteFailed) => (Phase::Cleanup, Action::RemoveFiles),
        (Phase::Executing, Event::EngineSucceeded) => (Phase::Aggregating, Action::ReadCounts),
        (Phase::Executing, Event::EngineFailed) => (Phase::Reporting, Action::SubmitFailure),
        (Phase::Aggregating, Event::CountsRead) => (Phase::Reporting, Action::SubmitReport),
        (Phase::Reporting, Event::ReportAttempted) => (Phase::Cleanup, Action::RemoveFiles),
        (Phase::Cleanup, Event::FilesRemoved) => (Phase::Idle, Action::Wait),
        _ => (phase, Action::Nothing),
    }
}

/// Whether a task is in hand in this phase, and with it its scratch files.
pub open spec fn holds_task(phase: Phase) -> bool {
    phase != Phase::Idle && phase != Phase::Fetching
}

/// Takes one step.
pub fn advance(phase: Phase, event: Event) -> (r: (Phase, Action))
    ensures
        r == step(phase, event),
{
    match (phase, event) {
        (Phase::Idle, Event::DelayElapsed) => (Phase::Fetching, Action::Fetch),
        (Phase::Fetching, Event::NoTask) => (Phase::Idle, Action::Wait),
        (Phase::Fetching, Event::TaskReceived) => (Phase::Preparing, Action::WriteSource),
        (Phase::Preparing, Event::SourceWritten) => (Phase::Executing, Action::RunEngine),
        (Phase::Preparing, Event::WriteFailed) => (Phase::Cleanup, Action::RemoveFiles),
        (Phase::Executing, Event::EngineSucceeded) => (Phase::Aggregating, Action::ReadCounts),
        (Phase::Executing, Event::EngineFailed) => (Phase::Reporting, Action::SubmitFailure),
        (Phase::Aggregating, Event::CountsRead) => (Phase::Reporting, Action::SubmitReport),
        (Phase::Reporting, Event::ReportAttempted) => (Phase::Cleanup, Action::RemoveFiles),
        (Phase::Cleanup, Event::FilesRemoved) => (Phase::Idle, Action::Wait),
        _ => (phase, Action::Nothing),
    }
}

/// A task in hand is let go only by the step that removes its scratch
/// files: while a task is held, the one step that leads to a phase without
/// a task is that from `Cleanup` on `FilesRemoved`. And `Cleanup` is
/// entered with the order to remove the files.
pub proof fn lemma_release_only_through_cleanup(phase: Phase, event: Event)
    requires
        holds_task(phase),
    ensures
        !holds_task(step(phase, event).0) ==> phase == Phase::Cleanup && event
            == Event::FilesRemoved,
        step(phase, event).0 == Phase::Cleanup && phase != Phase::Cleanup ==> step(phase, event).1
            == Action::RemoveFiles,
{
}

/// A report is submitted at most once per task: the steps that order a
/// submission are those that enter `Reporting`, and `Reporting` is left
/// for `Cleanup` alone.
pub proof fn lemma_one_submission(phase: Phase, event: Event)
    ensures
        (step(phase, event).1 == Action::SubmitFailure || step(phase, event).1
            == Action::SubmitReport) <==> (step(phase, event).0 == Phase::Reporting && phase
            != Phase::Reporting),
        phase == Phase::Reporting ==> step(phase, event).0 == Phase::Reporting || step(
            phase,
            event,
        ).0 == Phase::Cleanup,
{
}

} // verus!
