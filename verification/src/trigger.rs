//! The export trigger: a pending-export flag set by the host's input
//! handling and consumed once at the start of the pass that observes it.

use vstd::prelude::*;

verus! {

/// Export settings owned by the host: the destination path and the flag
/// that marks an export as pending. The flag starts cleared (idle).
pub struct SvgExportSettings {
    pub export_path: String,
    /// Flag to indicate that the export should be run.
    pub run_export: bool,
}

/// The settings after an export request: the flag is set, nothing else
/// changes. A second request before a pass finds the flag already set and
/// leaves the same state, so rapid repeats collapse to one pending export.
pub open spec fn requested(s: SvgExportSettings) -> SvgExportSettings {
    SvgExportSettings { run_export: true, ..s }
}

/// The settings after a pass has consumed the flag: cleared, whatever it was.
pub open spec fn consumed(s: SvgExportSettings) -> SvgExportSettings {
    SvgExportSettings { run_export: false, ..s }
}

/// Whether a pass observing these settings would run an export.
pub open spec fn pending(s: SvgExportSettings) -> bool {
    s.run_export
}

impl SvgExportSettings {
    /// Fresh settings: no export pending.
    pub fn new(export_path: String) -> (s: SvgExportSettings)
        ensures
            !pending(s),
            s.export_path == export_path,
    {
        SvgExportSettings { export_path, run_export: false }
    }

    /// Records an export request (the edge-triggered "export key" event).
    pub fn request_export(&mut self)
        ensures
            *final(self) == requested(*old(self)),
    {
        self.run_export = true;
    }

    /// Reads and clears the flag in one step, at the start of a pass: the
    /// flag is cleared even if the export that follows fails, so one request
    /// never causes a retry.
    pub fn take_run_export(&mut self) -> (was_pending: bool)
        ensures
            was_pending == pending(*old(self)),
            *final(self) == consumed(*old(self)),
    {
        let was_pending = self.run_export;
        self.run_export = false;
        was_pending
    }
}

/// Trigger idempotence: two export requests arriving before any pass runs
/// leave the same state as one, so the next pass runs exactly one export and
/// the pass after it runs none.
pub proof fn lemma_trigger_collapses(s: SvgExportSettings)
    ensures
        requested(requested(s)) == requested(s),
        pending(requested(requested(s))),
        !pending(consumed(requested(requested(s)))),
{
}

} // verus!
