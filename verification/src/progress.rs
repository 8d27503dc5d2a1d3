//! The running total of a scan that a caller can watch while the scan
//! goes on.

use vstd::prelude::*;

verus! {

/// The seconds between two reports of the running total.
pub const REPORT_INTERVAL_SECS: u64 = 2;

/// The seconds that the coordinator waits for a file before it takes the
/// scan as finished.
pub const DRAIN_TIMEOUT_SECS: u64 = 5;

/// The number of files that a scan has counted so far.
#[derive(Debug)]
pub struct ScanProgress {
    pub total: u64,
}

/// What the watcher of a scan is woken by.
#[derive(Debug, Clone, Copy, PartialEq, Eq, Structural)]
pub enum ProgressEvent {
    /// The time between two reports has passed.
    Tick,
    /// The scan has returned.
    Stopped,
}

/// What the watcher does next.
#[derive(Debug, Clone, Copy, PartialEq, Eq, Structural)]
pub enum ProgressAction {
    /// Report this total and go on watching.
    Report(u64),
    /// Stop watching.
    Finish,
}

impl ScanProgress {
    /// A total of no files.
    pub fn new() -> (progress: ScanProgress)
        ensures
            progress.total == 0,
    {
        ScanProgress { total: 0 }
    }

    /// Adds `files` to the total.
    pub fn add(&mut self, files: u64)
        requires
            old(self).total + files <= u64::MAX,
        ensures
            final(self).total == old(self).total + files,
    {
        self.total = self.total + files;
    }

    /// The watcher's step: a tick reports the total as it stands and
    /// leaves it alone; the end of the scan sets the total back to 0 for
    /// the next scan and ends the watch.
    pub fn on_event(&mut self, event: ProgressEvent) -> (action: ProgressAction)
        ensures
            event == ProgressEvent::Tick ==> action == ProgressAction::Report(old(self).total)
                && final(self).total == old(self).total,
            event == ProgressEvent::Stopped ==> action == ProgressAction::Finish
                && final(self).total == 0,
    {
        match event {
            ProgressEvent::Tick => ProgressAction::Report(self.total),
            ProgressEvent::Stopped => {
                self.total = 0;
                ProgressAction::Finish
            },
        }
    }
}

} // verus!
