//! What to do when the watcher of the content directory reports something.
//! The watching itself, and the waiting for it, happen outside this library.

use vstd::prelude::*;

verus! {

/// What the watcher of the content directory reported.
#[derive(Debug, Clone, Copy, PartialEq, Eq, Structural)]
pub enum WatchEvent {
    /// A file was written.
    Write,
    /// Anything else happened to a file.
    Other,
    /// The watcher failed.
    Failed,
}

/// What the monitor does next.
#[derive(Debug, Clone, Copy, PartialEq, Eq, Structural)]
pub enum MonitorAction {
    /// Compile every document again.
    Recompile,
    /// Report the failure of the watcher.
    Report,
    /// Go on waiting.
    Wait,
}

/// A write makes everything compile again, file by file granularity is not
/// needed; a failure is reported; the rest is passed over.
pub open spec fn action_for(event: WatchEvent) -> MonitorAction {
    match event {
        WatchEvent::Write => MonitorAction::Recompile,
        WatchEvent::Failed => MonitorAction::Report,
        WatchEvent::Other => MonitorAction::Wait,
    }
}

/// Decides what the monitor does after `event`.
pub fn next_action(event: WatchEvent) -> (action: MonitorAction)
    ensures
        action == action_for(event),
{
    match event {
        WatchEvent::Write => MonitorAction::Recompile,
        WatchEvent::Failed => MonitorAction::Report,
        WatchEvent::Other => MonitorAction::Wait,
    }
}

} // verus!
