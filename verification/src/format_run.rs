//! Formatting the staged lines of several files, one file after the other.
use crate::merge::LineRange;
use crate::verdict::FileVerdict;
use vstd::prelude::*;

verus! {

/// What a run waits for with respect to the file it is at.
#[derive(Debug)]
pub enum FormatStage {
    /// The staged lines of the file.
    Ranges,
    /// Whether the file is among those that were loaded.
    File(Vec<LineRange>),
    /// The formatted content of the file.
    Formatting,
    /// The new content to be written.
    Write,
    /// Nothing: all files are done.
    Over,
}

/// What a run wants to be done. Files are named by their position.
#[derive(Debug)]
pub enum FormatFileAction {
    /// Find out which lines of the file are staged.
    GetRanges(usize),
    /// Find the file among those that were loaded.
    Find(usize),
    /// Format these lines of the file.
    FormatLines { file: usize, ranges: Vec<LineRange> },
    /// Write this content to the file.
    Write { file: usize, content: String },
    /// Nothing more.
    Finish,
}

/// How an action went.
#[derive(Debug)]
pub enum FormatFileEvent {
    /// The staged lines of the file.
    Ranges(Vec<LineRange>),
    /// The file is not among those that were loaded.
    Missing,
    /// The file is among those that were loaded.
    Found,
    /// The content with the lines formatted.
    Changed(String),
    /// The lines are formatted already.
    Unchanged,
    /// The file could not be parsed.
    FailedToParse,
    /// The lines could not be formatted.
    Failed,
    /// Whether the content was written.
    Written(bool),
}

/// A run over several files.
#[derive(Debug)]
pub struct FormatRun {
    /// How many files there are.
    pub total: usize,
    /// What became of the files that are done. The run is at the file behind them.
    pub verdicts: Vec<FileVerdict>,
    /// What the run waits for.
    pub stage: FormatStage,
}

/// What follows an event.
#[derive(Debug)]
pub struct FormatFileStep {
    /// The run after the event.
    pub run: FormatRun,
    /// What it wants to be done.
    pub action: FormatFileAction,
}

/// The run turns to the file behind those that are done, if there is one.
pub open spec fn begins_format(run: FormatRun, action: FormatFileAction) -> bool {
    if run.verdicts@.len() >= run.total {
        run.stage is Over && action is Finish
    } else {
        run.stage is Ranges && action == FormatFileAction::GetRanges(run.verdicts@.len() as usize)
    }
}

/// The file is done, and the run turns to the next.
pub open spec fn format_done(run: FormatRun, verdict: FileVerdict, step: FormatFileStep) -> bool {
    &&& step.run.total == run.total
    &&& step.run.verdicts@ == run.verdicts@.push(verdict)
    &&& begins_format(step.run, step.action)
}

/// The run stays at the file, and now waits for `stage`.
pub open spec fn format_goes_on(
    run: FormatRun,
    stage: FormatStage,
    action: FormatFileAction,
    step: FormatFileStep,
) -> bool {
    step == (FormatFileStep { run: FormatRun { stage, ..run }, action })
}

/// The event is what the run waits for.
pub open spec fn format_file_answers(run: FormatRun, event: FormatFileEvent) -> bool {
    match run.stage {
        FormatStage::Ranges => event is Ranges,
        FormatStage::File(_) => event is Missing || event is Found,
        FormatStage::Formatting => event is Changed || event is Unchanged || event is FailedToParse
            || event is Failed,
        FormatStage::Write => event is Written,
        FormatStage::Over => false,
    }
}

/// What follows an event that the run waits for.
pub open spec fn format_file_follows(
    run: FormatRun,
    event: FormatFileEvent,
    step: FormatFileStep,
) -> bool {
    let file = run.verdicts@.len() as usize;
    match (run.stage, event) {
        (FormatStage::Ranges, FormatFileEvent::Ranges(ranges)) => if ranges@.len() == 0 {
            format_done(run, FileVerdict::Skipped, step)
        } else {
            format_goes_on(run, FormatStage::File(ranges), FormatFileAction::Find(file), step)
        },
        (FormatStage::File(_), FormatFileEvent::Missing) => format_done(
            run,
            FileVerdict::Skipped,
            step,
        ),
        (FormatStage::File(ranges), FormatFileEvent::Found) => format_goes_on(
            run,
            FormatStage::Formatting,
            FormatFileAction::FormatLines { file, ranges },
            step,
        ),
        (FormatStage::Formatting, FormatFileEvent::Changed(content)) => format_goes_on(
            run,
            FormatStage::Write,
            FormatFileAction::Write { file, content },
            step,
        ),
        (FormatStage::Formatting, _) => format_done(run, FileVerdict::Left, step),
        (FormatStage::Write, FormatFileEvent::Written(ok)) => format_done(
            run,
            if ok {
                FileVerdict::Changed
            } else {
                FileVerdict::Left
            },
            step,
        ),
        _ => false,
    }
}

impl FormatRun {
    /// The run is at one of its files, or is over.
    pub open spec fn wf(self) -> bool {
        &&& self.verdicts@.len() <= self.total
        &&& self.stage is Over <==> self.verdicts@.len() == self.total
    }

    /// A run over so many files.
    pub fn start(total: usize) -> (r: FormatFileStep)
        ensures
            r.run.wf(),
            r.run.total == total,
            r.run.verdicts@.len() == 0,
            begins_format(r.run, r.action),
    {
        turn_to_file(total, Vec::new())
    }

    /// Goes on after an event. Nothing follows an event that the run does not wait for.
    pub fn step(self, event: FormatFileEvent) -> (r: Option<FormatFileStep>)
        requires
            self.wf(),
        ensures
            r is Some <==> format_file_answers(self, event),
            r matches Some(step) ==> step.run.wf() && format_file_follows(self, event, step),
    {
        let FormatRun { total, verdicts, stage } = self;
        let file = verdicts.len();
        match (stage, event) {
            (FormatStage::Ranges, FormatFileEvent::Ranges(ranges)) => {
                if ranges.len() == 0 {
                    Some(finish_file(total, verdicts, FileVerdict::Skipped))
                } else {
                    let run = FormatRun { total, verdicts, stage: FormatStage::File(ranges) };
                    Some(FormatFileStep { run, action: FormatFileAction::Find(file) })
                }
            },
            (FormatStage::File(_), FormatFileEvent::Missing) => {
                Some(finish_file(total, verdicts, FileVerdict::Skipped))
            },
            (FormatStage::File(ranges), FormatFileEvent::Found) => {
                let run = FormatRun { total, verdicts, stage: FormatStage::Formatting };
                let action = FormatFileAction::FormatLines { file, ranges };
                Some(FormatFileStep { run, action })
            },
            (FormatStage::Formatting, FormatFileEvent::Changed(content)) => {
                let run = FormatRun { total, verdicts, stage: FormatStage::Write };
                let action = FormatFileAction::Write { file, content };
                Some(FormatFileStep { run, action })
            },
            (FormatStage::Formatting, FormatFileEvent::Unchanged)
            | (FormatStage::Formatting, FormatFileEvent::FailedToParse)
            | (FormatStage::Formatting, FormatFileEvent::Failed) => {
                Some(finish_file(total, verdicts, FileVerdict::Left))
            },
            (FormatStage::Write, FormatFileEvent::Written(ok)) => {
                let verdict = if ok {
                    FileVerdict::Changed
                } else {
                    FileVerdict::Left
                };
                Some(finish_file(total, verdicts, verdict))
            },
            _ => None,
        }
    }
}

/// Turns to the file behind those that are done.
fn turn_to_file(total: usize, verdicts: Vec<FileVerdict>) -> (r: FormatFileStep)
    requires
        verdicts@.len() <= total,
    ensures
        r.run.wf(),
        r.run.total == total,
        r.run.verdicts == verdicts,
        begins_format(r.run, r.action),
{
    let at = verdicts.len();
    let (stage, action) = if at >= total {
        (FormatStage::Over, FormatFileAction::Finish)
    } else {
        (FormatStage::Ranges, FormatFileAction::GetRanges(at))
    };
    FormatFileStep { run: FormatRun { total, verdicts, stage }, action }
}

/// Notes what became of the file, and turns to the next.
fn finish_file(total: usize, verdicts: Vec<FileVerdict>, verdict: FileVerdict) -> (r: FormatFileStep)
    requires
        verdicts@.len() < total,
    ensures
        r.run.wf(),
        r.run.total == total,
        r.run.verdicts@ == verdicts@.push(verdict),
        begins_format(r.run, r.action),
{
    let mut verdicts = verdicts;
    verdicts.push(verdict);
    turn_to_file(total, verdicts)
}

/// A bound on the events that the run can still take.
pub open spec fn format_events_left(run: FormatRun) -> int {
    let at_file: int = match run.stage {
        FormatStage::Ranges => 4,
        FormatStage::File(_) => 3,
        FormatStage::Formatting => 2,
        FormatStage::Write => 1,
        FormatStage::Over => 4,
    };
    at_file + 4 * (run.total - run.verdicts@.len() - 1)
}

/// Every run comes to an end: it takes at most four events for each file.
pub proof fn format_runs_come_to_an_end(
    run: FormatRun,
    event: FormatFileEvent,
    step: FormatFileStep,
)
    requires
        run.wf(),
        step.run.wf(),
        format_file_follows(run, event, step),
    ensures
        0 <= format_events_left(step.run) < format_events_left(run) <= 4 * run.total,
{
}

/// The action is what the stage of the run calls for.
pub open spec fn format_calls_for(run: FormatRun, action: FormatFileAction) -> bool {
    let at = run.verdicts@.len();
    match run.stage {
        FormatStage::Ranges => action matches FormatFileAction::GetRanges(file) && file == at,
        FormatStage::File(_) => action matches FormatFileAction::Find(file) && file == at,
        FormatStage::Formatting => action matches FormatFileAction::FormatLines { file, .. }
            && file == at,
        FormatStage::Write => action matches FormatFileAction::Write { file, .. } && file == at,
        FormatStage::Over => action is Finish,
    }
}

/// A run asks only about the file it is at, and for what its stage says.
pub proof fn format_actions_suit_the_stage(
    run: FormatRun,
    event: FormatFileEvent,
    step: FormatFileStep,
)
    requires
        run.wf(),
        step.run.wf(),
        format_file_follows(run, event, step),
    ensures
        format_calls_for(step.run, step.action),
{
}

} // verus!
