//! What holds of every run over changed lines.
use crate::fix::FixScope;
use crate::line_run::{FileAction, FileEvent, FileStage, FileStep, LineRun};
use crate::merge::LineRange;
use vstd::prelude::*;

verus! {

/// How many events the run can still take at its file.
pub open spec fn events_at_file(stage: FileStage) -> nat {
    match stage {
        FileStage::Ranges => 6,
        FileStage::Contents(_) => 5,
        FileStage::Issues(_, _) => 4,
        FileStage::Edits(_, _, within) => if within@.len() > 0 {
            3
        } else {
            2
        },
        FileStage::Write => 1,
        FileStage::Over => 0,
    }
}

/// A bound on the events that the run can still take.
pub open spec fn events_left(run: LineRun) -> int {
    if run.stage is Over {
        0
    } else {
        events_at_file(run.stage) + 6 * (run.files@.len() - run.verdicts@.len() - 1)
    }
}

/// Every run comes to an end: it takes at most six events for each file.
pub proof fn runs_come_to_an_end(run: LineRun, event: FileEvent, step: FileStep)
    requires
        run.wf(),
        step.run.wf(),
        crate::line_run::follows(run, event, step),
    ensures
        0 <= events_left(step.run) < events_left(run) <= 6 * run.files@.len(),
{
}

/// When a run is over, it has a verdict on each of its files.
pub proof fn every_file_gets_a_verdict(run: LineRun)
    requires
        run.wf(),
        run.stage is Over,
    ensures
        run.verdicts@.len() == run.files@.len(),
{
}

/// The action is what the stage of the run calls for.
pub open spec fn calls_for(run: LineRun, action: FileAction) -> bool {
    let at = run.verdicts@.len();
    match run.stage {
        FileStage::Ranges => action matches FileAction::GetRanges(file) && file == at,
        FileStage::Contents(_) => action matches FileAction::Read(file) && file == at,
        FileStage::Issues(_, _) => action matches FileAction::Lint { file, mode, filtered } && file == at
            && mode == run.plan.mode && filtered == run.plan.filtered,
        FileStage::Edits(_, _, _) => action matches FileAction::ApplyBatches { file, .. } && file
            == at,
        FileStage::Write => action matches FileAction::Write { file, .. } && file == at,
        FileStage::Over => action is Finish,
    }
}

/// A run asks only about the file it is at, and for what its stage says.
pub proof fn actions_suit_the_stage(run: LineRun, event: FileEvent, step: FileStep)
    requires
        run.wf(),
        step.run.wf(),
        crate::line_run::follows(run, event, step),
    ensures
        calls_for(step.run, step.action),
{
    assert(run.verdicts.len() == run.verdicts@.len());
    assert(step.run.verdicts.len() == step.run.verdicts@.len());
}

/// A file of which only some lines may change is written only with lines of its ranges
/// replaced: where no line belongs to two ranges, every other line stays.
pub proof fn only_changed_lines_are_written(
    run: LineRun,
    event: FileEvent,
    step: FileStep,
    ranges: Vec<LineRange>,
    contents: String,
    within: Vec<usize>,
)
    requires
        crate::line_run::follows(run, event, step),
        run.stage == FileStage::Edits(FixScope::Lines(ranges), contents, within),
        crate::merge_laws::disjoint(ranges@),
    ensures
        step.action matches FileAction::Write { content: written, .. }
            ==> crate::fix_laws::keeps_other_lines(contents@, ranges@, written@),
{
    match event {
        FileEvent::Edited { content: fixed, .. } => {
            crate::fix_laws::only_lines_of_the_ranges_are_replaced(contents@, ranges@, fixed@);
        },
        _ => {},
    }
}

} // verus!
