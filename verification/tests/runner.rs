use vexy_svgo_plugin_sdk::runner::{run_step, RunAction, RunEvent, RunStage};

#[test]
fn runner_decisions() {
    let look = |enabled, known, has_params| RunEvent::Look { enabled, known, has_params };
    assert_eq!(run_step(RunStage::Start, look(false, false, true)), (RunStage::Start, RunAction::NextDescriptor));
    assert_eq!(run_step(RunStage::Start, look(true, false, false)), (RunStage::Start, RunAction::RefuseUnknown));
    assert_eq!(run_step(RunStage::Start, look(true, true, true)), (RunStage::Checking, RunAction::CheckParams));
    assert_eq!(run_step(RunStage::Start, look(true, true, false)), (RunStage::Applying, RunAction::ApplyPlugin));
    assert_eq!(run_step(RunStage::Checking, RunEvent::Succeeded), (RunStage::Applying, RunAction::ApplyPlugin));
    assert_eq!(run_step(RunStage::Checking, RunEvent::Failed), (RunStage::Start, RunAction::Stop));
    assert_eq!(run_step(RunStage::Applying, RunEvent::Succeeded), (RunStage::Start, RunAction::NextDescriptor));
    assert_eq!(run_step(RunStage::Applying, RunEvent::Failed), (RunStage::Start, RunAction::Stop));
}
