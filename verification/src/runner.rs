//! The decisions of running a list of plugin descriptors on a document: which
//! descriptors are skipped, when parameters are checked, when a plugin is applied and
//! where the run stops. The checks and the plugins themselves run outside.
use vstd::prelude::*;

verus! {

/// Where the run of one descriptor stands.
#[derive(Debug, Clone, Copy, PartialEq, Eq, Structural)]
pub enum RunStage {
    /// About to look at a descriptor.
    Start,
    /// Its parameters are being checked.
    Checking,
    /// Its plugin is being applied.
    Applying,
}

/// What the runner learns.
#[derive(Debug, Clone, Copy, PartialEq, Eq, Structural)]
pub enum RunEvent {
    /// The next descriptor: whether it is enabled, whether a plugin of its name is
    /// registered, and whether it carries parameters.
    Look { enabled: bool, known: bool, has_params: bool },
    /// The check or the plugin succeeded.
    Succeeded,
    /// The check or the plugin failed.
    Failed,
}

/// What the runner does next.
#[derive(Debug, Clone, Copy, PartialEq, Eq, Structural)]
pub enum RunAction {
    /// Go on with the next descriptor.
    NextDescriptor,
    /// Fail: no plugin of that name is registered.
    RefuseUnknown,
    /// Check the descriptor's parameters with its plugin.
    CheckParams,
    /// Apply the plugin to the document.
    ApplyPlugin,
    /// Stop with the error that was reported.
    Stop,
}

/// The next stage and action: a disabled descriptor is skipped, an unknown name is
/// refused, parameters (when there are any) are checked before the plugin is applied,
/// and any failure stops the run. An event that does not fit the stage stops it too.
pub open spec fn run_transition(stage: RunStage, ev: RunEvent) -> (RunStage, RunAction) {
    match (stage, ev) {
        (RunStage::Start, RunEvent::Look { enabled, known, has_params }) => if !enabled {
            (RunStage::Start, RunAction::NextDescriptor)
        } else if !known {
            (RunStage::Start, RunAction::RefuseUnknown)
        } else if has_params {
            (RunStage::Checking, RunAction::CheckParams)
        } else {
            (RunStage::Applying, RunAction::ApplyPlugin)
        },
        (RunStage::Checking, RunEvent::Succeeded) => (RunStage::Applying, RunAction::ApplyPlugin),
        (RunStage::Applying, RunEvent::Succeeded) => (RunStage::Start, RunAction::NextDescriptor),
        _ => (RunStage::Start, RunAction::Stop),
    }
}

/// The next stage and action of a run.
pub fn run_step(stage: RunStage, ev: RunEvent) -> (r: (RunStage, RunAction))
    ensures
        r == run_transition(stage, ev),
{
    match stage {
        RunStage::Start => match ev {
            RunEvent::Look { enabled, known, has_params } => {
                if !enabled {
                    (RunStage::Start, RunAction::NextDescriptor)
                } else if !known {
                    (RunStage::Start, RunAction::RefuseUnknown)
                } else if has_params {
                    (RunStage::Checking, RunAction::CheckParams)
                } else {
                    (RunStage::Applying, RunAction::ApplyPlugin)
                }
            },
            _ => (RunStage::Start, RunAction::Stop),
        },
        RunStage::Checking => match ev {
            RunEvent::Succeeded => (RunStage::Applying, RunAction::ApplyPlugin),
            _ => (RunStage::Start, RunAction::Stop),
        },
        RunStage::Applying => match ev {
            RunEvent::Succeeded => (RunStage::Start, RunAction::NextDescriptor),
            _ => (RunStage::Start, RunAction::Stop),
        },
    }
}

/// An enabled, known descriptor is applied exactly when its check (if any) succeeded,
/// and the run then goes on with the next descriptor.
pub proof fn lemma_run_applies_after_check(has_params: bool)
    ensures
        ({
            let (s1, a1) = run_transition(
                RunStage::Start,
                RunEvent::Look { enabled: true, known: true, has_params },
            );
            &&& has_params ==> a1 == RunAction::CheckParams && run_transition(s1, RunEvent::Succeeded)
                == (RunStage::Applying, RunAction::ApplyPlugin) && run_transition(s1, RunEvent::Failed).1
                == RunAction::Stop
            &&& !has_params ==> a1 == RunAction::ApplyPlugin && s1 == RunStage::Applying
            &&& run_transition(RunStage::Applying, RunEvent::Succeeded) == (
                RunStage::Start,
                RunAction::NextDescriptor,
            )
        }),
{
}

} // verus!
