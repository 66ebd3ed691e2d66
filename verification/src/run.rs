//! The protocol of one synchronisation run of a year, as a state machine:
//! from the stage reached and what the last step reported, the next stage
//! and the next thing to do. The caller performs each action (network,
//! files, database) and reports back.

use vstd::prelude::*;
use crate::webdav::ConcurrencyMode;

verus! {

/// How far a run has come.
#[derive(Debug, Clone, Copy, PartialEq, Eq, Structural)]
pub enum RunStage {
    Begin,
    WantManifest,
    WantPackage,
    WantMerge,
    WantLatestManifest,
    WantLatestPackage,
    WantPackagePut,
    WantManifestPut,
    Done,
    Stopped,
}

/// What the last action reported.
#[derive(Debug, Clone, Copy, PartialEq, Eq, Structural)]
pub enum RunEvent {
    /// The run is asked to start.
    Start,
    /// The shared manifest was read; `found` when the server has one.
    ManifestFetched { found: bool },
    /// The year's package was read; `found` when the server has the file,
    /// `described` when the manifest lists a package for the year.
    PackageFetched { found: bool, described: bool },
    /// Both sides were merged and the new package was built.
    Merged,
    /// The manifest was read again before writing; `unchanged` when it is
    /// the one the run started from.
    LatestManifest { unchanged: bool },
    /// The package was read again before writing; `unchanged` when it is
    /// the one the run started from.
    LatestPackage { unchanged: bool },
    /// The new package was written.
    PackagePut,
    /// The new manifest was written.
    ManifestPut,
    /// The user cancelled the run.
    Cancelled,
}

/// What to do next.
#[derive(Debug, Clone, Copy, PartialEq, Eq, Structural)]
pub enum RunAction {
    /// Flush local usage, then read the shared manifest.
    FetchManifest,
    /// Read the year's package.
    FetchPackage,
    /// Decrypt the remote package, then merge it with the local records.
    OpenAndMerge,
    /// Merge with no remote records for the year.
    Merge,
    /// Read the manifest again (servers without conditional writes).
    FetchLatestManifest,
    /// Read the package again (servers without conditional writes).
    FetchLatestPackage,
    /// Write the new package.
    PutPackage,
    /// Write the new manifest.
    PutManifest,
    /// The run is complete.
    Finish,
    /// The server has no manifest: the run fails.
    FailMissingManifest,
    /// Another device wrote in between: the run fails with a conflict.
    FailConflict,
    /// The run stops, cancelled.
    FailCancelled,
    /// The event does not belong to this stage: nothing to do.
    Ignore,
}

/// The protocol of a run.
pub open spec fn run_step_spec(stage: RunStage, mode: ConcurrencyMode, event: RunEvent) -> (RunStage, RunAction) {
    if event == RunEvent::Cancelled && stage != RunStage::Done {
        (RunStage::Stopped, RunAction::FailCancelled)
    } else {
        match (stage, event) {
            (RunStage::Begin, RunEvent::Start) => (RunStage::WantManifest, RunAction::FetchManifest),
            (RunStage::WantManifest, RunEvent::ManifestFetched { found }) => if found {
                (RunStage::WantPackage, RunAction::FetchPackage)
            } else {
                (RunStage::Stopped, RunAction::FailMissingManifest)
            },
            (RunStage::WantPackage, RunEvent::PackageFetched { found, described }) => if found && described {
                (RunStage::WantMerge, RunAction::OpenAndMerge)
            } else {
                (RunStage::WantMerge, RunAction::Merge)
            },
            (RunStage::WantMerge, RunEvent::Merged) => if mode == ConcurrencyMode::Plain {
                (RunStage::WantLatestManifest, RunAction::FetchLatestManifest)
            } else {
                (RunStage::WantPackagePut, RunAction::PutPackage)
            },
            (RunStage::WantLatestManifest, RunEvent::LatestManifest { unchanged }) => if unchanged {
                (RunStage::WantLatestPackage, RunAction::FetchLatestPackage)
            } else {
                (RunStage::Stopped, RunAction::FailConflict)
            },
            (RunStage::WantLatestPackage, RunEvent::LatestPackage { unchanged }) => if unchanged {
                (RunStage::WantPackagePut, RunAction::PutPackage)
            } else {
                (RunStage::Stopped, RunAction::FailConflict)
            },
            (RunStage::WantPackagePut, RunEvent::PackagePut) => (RunStage::WantManifestPut, RunAction::PutManifest),
            (RunStage::WantManifestPut, RunEvent::ManifestPut) => (RunStage::Done, RunAction::Finish),
            _ => (stage, RunAction::Ignore),
        }
    }
}

/// One step of a run: the next stage and action for the event reported at
/// `stage`, on a server with concurrency mode `mode`.
pub fn run_step(stage: RunStage, mode: ConcurrencyMode, event: RunEvent) -> (r: (RunStage, RunAction))
    ensures
        r == run_step_spec(stage, mode, event),
{
    if event == RunEvent::Cancelled && stage != RunStage::Done {
        return (RunStage::Stopped, RunAction::FailCancelled);
    }
    match (stage, event) {
        (RunStage::Begin, RunEvent::Start) => (RunStage::WantManifest, RunAction::FetchManifest),
        (RunStage::WantManifest, RunEvent::ManifestFetched { found }) => if found {
            (RunStage::WantPackage, RunAction::FetchPackage)
        } else {
            (RunStage::Stopped, RunAction::FailMissingManifest)
        },
        (RunStage::WantPackage, RunEvent::PackageFetched { found, described }) => if found && described {
            (RunStage::WantMerge, RunAction::OpenAndMerge)
        } else {
            (RunStage::WantMerge, RunAction::Merge)
        },
        (RunStage::WantMerge, RunEvent::Merged) => if mode == ConcurrencyMode::Plain {
            (RunStage::WantLatestManifest, RunAction::FetchLatestManifest)
        } else {
            (RunStage::WantPackagePut, RunAction::PutPackage)
        },
        (RunStage::WantLatestManifest, RunEvent::LatestManifest { unchanged }) => if unchanged {
            (RunStage::WantLatestPackage, RunAction::FetchLatestPackage)
        } else {
            (RunStage::Stopped, RunAction::FailConflict)
        },
        (RunStage::WantLatestPackage, RunEvent::LatestPackage { unchanged }) => if unchanged {
            (RunStage::WantPackagePut, RunAction::PutPackage)
        } else {
            (RunStage::Stopped, RunAction::FailConflict)
        },
        (RunStage::WantPackagePut, RunEvent::PackagePut) => (RunStage::WantManifestPut, RunAction::PutManifest),
        (RunStage::WantManifestPut, RunEvent::ManifestPut) => (RunStage::Done, RunAction::Finish),
        _ => (stage, RunAction::Ignore),
    }
}

/// On a server without conditional writes, the package is written only
/// right after the package was found unchanged, which itself follows the
/// manifest found unchanged; with conditional writes, right after merging.
/// The package is checked again only after the manifest was found unchanged.
pub proof fn law_package_written_only_when_remote_unchanged(stage: RunStage, mode: ConcurrencyMode, event: RunEvent)
    ensures
        run_step_spec(stage, mode, event).1 == RunAction::PutPackage ==> ((stage == RunStage::WantLatestPackage
            && event == (RunEvent::LatestPackage { unchanged: true })) || (mode != ConcurrencyMode::Plain
            && stage == RunStage::WantMerge && event == RunEvent::Merged)),
        stage != RunStage::WantLatestPackage && run_step_spec(stage, mode, event).0 == RunStage::WantLatestPackage
            ==> (stage == RunStage::WantLatestManifest && event == (RunEvent::LatestManifest { unchanged: true })),
{
}

/// The manifest is written only once the package has been written, and the
/// run finishes only once the manifest has been written.
pub proof fn law_manifest_written_after_package(stage: RunStage, mode: ConcurrencyMode, event: RunEvent)
    ensures
        run_step_spec(stage, mode, event).1 == RunAction::PutManifest ==> (stage == RunStage::WantPackagePut
            && event == RunEvent::PackagePut),
        run_step_spec(stage, mode, event).1 == RunAction::Finish ==> (stage == RunStage::WantManifestPut
            && event == RunEvent::ManifestPut),
{
}

/// A cancellation stops any run that has not finished (at a stopped run it
/// answers with the cancellation failure again); a stopped run stays
/// stopped whatever is reported, and a finished run ignores every event.
pub proof fn law_cancel_stops_and_end_is_final(stage: RunStage, mode: ConcurrencyMode, event: RunEvent)
    ensures
        stage != RunStage::Done ==> run_step_spec(stage, mode, RunEvent::Cancelled) == (
        RunStage::Stopped,
        RunAction::FailCancelled,
        ),
        stage == RunStage::Stopped ==> run_step_spec(stage, mode, event).0 == RunStage::Stopped,
        stage == RunStage::Done ==> run_step_spec(stage, mode, event) == (RunStage::Done, RunAction::Ignore),
{
}

/// The year's package on the server is always read into the merge when
/// the manifest describes it, on every kind of server; otherwise the merge
/// uses the local records alone.
pub proof fn law_remote_package_is_merged(mode: ConcurrencyMode, found: bool, described: bool)
    ensures
        run_step_spec(RunStage::WantPackage, mode, RunEvent::PackageFetched { found, described }) == (
        RunStage::WantMerge,
        if found && described {
            RunAction::OpenAndMerge
        } else {
            RunAction::Merge
        },
        ),
{
}

/// The kind of server matters only for what follows the merge: for every
/// other event the step is the same on every server.
pub proof fn law_mode_matters_only_after_merge(stage: RunStage, m1: ConcurrencyMode, m2: ConcurrencyMode, event: RunEvent)
    ensures
        event != RunEvent::Merged ==> run_step_spec(stage, m1, event) == run_step_spec(stage, m2, event),
{
}

} // verus!
