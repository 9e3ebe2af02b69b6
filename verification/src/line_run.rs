//! Fixing the changed lines of several files, one file after the other.
//!
//! A run says what it needs next, and goes on when it is told how that went. It never
//! touches a file itself.
use crate::fix::{
    fix_outcome, select_batches, select_within, ChangeType, FixOutcome, FixResult, FixScope,
    FoundIssue, Safety,
};
use crate::lint::LintMode;
use crate::merge::{LineRange, MergeError};
use crate::verdict::FileVerdict;
use vstd::prelude::*;

verus! {

/// What a run waits for with respect to the file it is at.
#[derive(Debug)]
pub enum FileStage {
    /// The lines of the file that changed.
    Ranges,
    /// The content of the file.
    Contents(FixScope),
    /// The issues in the file.
    Issues(FixScope, String),
    /// The content with the edits of the chosen issues applied. If it then cannot be told which
    /// lines belong to the ranges, the edits of the issues at these positions are applied
    /// alone, if there are any: they touch no line outside the ranges.
    Edits(FixScope, String, Vec<usize>),
    /// The new content to be written.
    Write,
    /// Nothing: all files are done.
    Over,
}

/// What a run wants to be done. Files are named by their position.
#[derive(Debug)]
pub enum FileAction {
    /// Find out which lines of the file changed.
    GetRanges(usize),
    /// Get the content of the file.
    Read(usize),
    /// Find the issues in the file, with only the rules asked for if `filtered`.
    Lint { file: usize, mode: LintMode, filtered: bool },
    /// Apply the edits of the issues at these positions, as far as `safety` admits.
    ApplyBatches { file: usize, batches: Vec<usize>, safety: Safety },
    /// Write this content to the file.
    Write { file: usize, content: String },
    /// Nothing more.
    Finish,
}

/// How an action went.
#[derive(Debug)]
pub enum FileEvent {
    /// The lines of the file that changed.
    Ranges(Vec<LineRange>),
    /// The file is not among those that were loaded.
    Missing,
    /// The content of the file.
    Contents(String),
    /// The issues in the file.
    Issues(Vec<FoundIssue>),
    /// Which batches of edits were applied, and the content with them.
    Edited { applied: Vec<bool>, content: String },
    /// Whether the content was written.
    Written(bool),
}

/// How files are linted and fixed.
#[derive(Debug, Clone, Copy, PartialEq, Eq, Structural)]
pub struct FixPlan {
    /// Which checks run.
    pub mode: LintMode,
    /// Only the rules asked for run.
    pub filtered: bool,
    /// How far edits may go.
    pub safety: Safety,
}

/// A run over several files.
#[derive(Debug)]
pub struct LineRun {
    /// How each file changed.
    pub files: Vec<ChangeType>,
    /// How the files are linted and fixed.
    pub plan: FixPlan,
    /// What became of the files that are done. The run is at the file behind them.
    pub verdicts: Vec<FileVerdict>,
    /// What the run waits for.
    pub stage: FileStage,
}

/// What follows an event.
#[derive(Debug)]
pub struct FileStep {
    /// The run after the event.
    pub run: LineRun,
    /// What it wants to be done.
    pub action: FileAction,
    /// Why fixed lines could not be merged, if they could not.
    pub refused: Option<MergeError>,
}

/// The run turns to the file behind those that are done, if there is one. The lines of a
/// new file do not matter, so it does not ask for them.
pub open spec fn begins_file(run: LineRun, action: FileAction) -> bool {
    let at = run.verdicts@.len();
    if at >= run.files@.len() {
        run.stage is Over && action is Finish
    } else if run.files@[at as int] == ChangeType::Added {
        run.stage == FileStage::Contents(FixScope::WholeFile) && action == FileAction::Read(
            at as usize,
        )
    } else {
        run.stage is Ranges && action == FileAction::GetRanges(at as usize)
    }
}

/// One run continues another: it is over the same files, with the same plan.
pub open spec fn continues(run: LineRun, step: FileStep) -> bool {
    step.run.files == run.files && step.run.plan == run.plan
}

/// The file is done, and the run turns to the next.
pub open spec fn file_done(
    run: LineRun,
    verdict: FileVerdict,
    refused: Option<MergeError>,
    step: FileStep,
) -> bool {
    &&& continues(run, step)
    &&& step.run.verdicts@ == run.verdicts@.push(verdict)
    &&& begins_file(step.run, step.action)
    &&& step.refused == refused
}

/// The run stays at the file, and now waits for `stage`.
pub open spec fn file_goes_on(run: LineRun, stage: FileStage, step: FileStep) -> bool {
    &&& continues(run, step)
    &&& step.run.verdicts == run.verdicts
    &&& step.run.stage == stage
    &&& step.refused is None
}

/// The event is what the run waits for.
pub open spec fn answers(run: LineRun, event: FileEvent) -> bool {
    match run.stage {
        FileStage::Ranges => event is Ranges,
        FileStage::Contents(_) => event is Missing || event is Contents,
        FileStage::Issues(_, _) => event is Issues,
        FileStage::Edits(_, _, _) => event is Edited,
        FileStage::Write => event is Written,
        FileStage::Over => false,
    }
}

/// Some issue is to be fixed.
pub open spec fn any_fixed(scope: FixScope, issues: Seq<FoundIssue>) -> bool {
    exists|i: int| 0 <= i < issues.len() && crate::fix::is_fixed(scope, #[trigger] issues[i])
}

/// What follows an event that the run waits for.
pub open spec fn follows(run: LineRun, event: FileEvent, step: FileStep) -> bool {
    let at = run.verdicts@.len() as usize;
    match (run.stage, event) {
        (FileStage::Ranges, FileEvent::Ranges(ranges)) => if ranges@.len() == 0 {
            file_done(run, FileVerdict::Skipped, None, step)
        } else {
            &&& file_goes_on(run, FileStage::Contents(FixScope::Lines(ranges)), step)
            &&& step.action == FileAction::Read(at)
        },
        (FileStage::Contents(_), FileEvent::Missing) => file_done(
            run,
            FileVerdict::Skipped,
            None,
            step,
        ),
        (FileStage::Contents(scope), FileEvent::Contents(contents)) => {
            &&& file_goes_on(run, FileStage::Issues(scope, contents), step)
            &&& step.action == (FileAction::Lint {
                file: at,
                mode: run.plan.mode,
                filtered: run.plan.filtered,
            })
        },
        (FileStage::Issues(scope, contents), FileEvent::Issues(issues)) => if any_fixed(
            scope,
            issues@,
        ) {
            &&& step.run.stage matches FileStage::Edits(same_scope, same_contents, within)
            &&& file_goes_on(run, FileStage::Edits(scope, contents, within), step)
            &&& crate::fix::lists_positions(
                within@,
                issues@.len(),
                |i: int| crate::fix::is_fixed_within(scope, issues@[i]),
            )
            &&& step.action matches FileAction::ApplyBatches { file, batches, safety }
            &&& file == at
            &&& safety == run.plan.safety
            &&& crate::fix::lists_positions(
                batches@,
                issues@.len(),
                |i: int| crate::fix::is_fixed(scope, issues@[i]),
            )
        } else {
            file_done(run, FileVerdict::Skipped, None, step)
        },
        (FileStage::Edits(scope, contents, within), FileEvent::Edited { applied, content }) => {
            match crate::fix::fix_result(contents@, scope, applied@, content@) {
                FixResult::Skip => file_done(run, FileVerdict::Skipped, None, step),
                FixResult::Unclear => if within@.len() == 0 {
                    file_done(run, FileVerdict::Skipped, None, step)
                } else {
                    &&& step.run.stage matches FileStage::Edits(same_scope, same_contents, none)
                    &&& none@.len() == 0
                    &&& file_goes_on(run, FileStage::Edits(scope, contents, none), step)
                    &&& step.action == (FileAction::ApplyBatches {
                        file: at,
                        batches: within,
                        safety: run.plan.safety,
                    })
                },
                FixResult::Refused(e) => file_done(run, FileVerdict::Skipped, Some(e), step),
                FixResult::Write(text) => {
                    &&& file_goes_on(run, FileStage::Write, step)
                    &&& step.action matches FileAction::Write { file, content: new }
                    &&& file == at
                    &&& new@ == text
                },
            }
        },
        (FileStage::Write, FileEvent::Written(ok)) => file_done(
            run,
            if ok {
                FileVerdict::Changed
            } else {
                FileVerdict::Left
            },
            None,
            step,
        ),
        _ => false,
    }
}

impl LineRun {
    /// The run is at one of its files, or is over.
    pub open spec fn wf(self) -> bool {
        &&& self.verdicts@.len() <= self.files@.len()
        &&& self.stage is Over <==> self.verdicts@.len() == self.files@.len()
    }

    /// A run over files that changed as `files` says.
    pub fn start(files: Vec<ChangeType>, plan: FixPlan) -> (r: FileStep)
        ensures
            r.run.wf(),
            r.run.files == files,
            r.run.plan == plan,
            r.run.verdicts@.len() == 0,
            r.refused is None,
            begins_file(r.run, r.action),
    {
        turn_to_file(files, plan, Vec::new(), None)
    }

    /// Goes on after an event. Nothing follows an event that the run does not wait for.
    pub fn step(self, event: FileEvent) -> (r: Option<FileStep>)
        requires
            self.wf(),
        ensures
            r is Some <==> answers(self, event),
            r matches Some(step) ==> step.run.wf() && follows(self, event, step),
    {
        let LineRun { files, plan, verdicts, stage } = self;
        let at = verdicts.len();
        match (stage, event) {
            (FileStage::Ranges, FileEvent::Ranges(ranges)) => {
                if ranges.len() == 0 {
                    Some(finish_file(files, plan, verdicts, FileVerdict::Skipped, None))
                } else {
                    let stage = FileStage::Contents(FixScope::Lines(ranges));
                    Some(stay(files, plan, verdicts, stage, FileAction::Read(at)))
                }
            },
            (FileStage::Contents(_), FileEvent::Missing) => {
                Some(finish_file(files, plan, verdicts, FileVerdict::Skipped, None))
            },
            (FileStage::Contents(scope), FileEvent::Contents(contents)) => {
                let stage = FileStage::Issues(scope, contents);
                let action = FileAction::Lint {
                    file: at,
                    mode: plan.mode,
                    filtered: plan.filtered,
                };
                Some(stay(files, plan, verdicts, stage, action))
            },
            (FileStage::Issues(scope, contents), FileEvent::Issues(issues)) => {
                let batches = select_batches(&scope, &issues);
                if batches.len() == 0 {
                    assert(!any_fixed(scope, issues@)) by {
                        let chosen = |i: int| crate::fix::is_fixed(scope, issues@[i]);
                        assert forall|i: int| 0 <= i < issues@.len() implies !crate::fix::is_fixed(
                            scope,
                            #[trigger] issues@[i],
                        ) by {
                            if chosen(i) {
                                assert(batches@.contains(i as usize));
                            }
                        }
                    }
                    Some(finish_file(files, plan, verdicts, FileVerdict::Skipped, None))
                } else {
                    assert(crate::fix::is_fixed(scope, issues@[batches@[0] as int]));
                    let within = select_within(&scope, &issues);
                    let stage = FileStage::Edits(scope, contents, within);
                    let action = FileAction::ApplyBatches { file: at, batches, safety: plan.safety };
                    Some(stay(files, plan, verdicts, stage, action))
                }
            },
            (FileStage::Edits(scope, contents, within), FileEvent::Edited { applied, content }) => {
                match fix_outcome(&contents, &scope, &applied, content) {
                    FixOutcome::Skip => {
                        Some(finish_file(files, plan, verdicts, FileVerdict::Skipped, None))
                    },
                    FixOutcome::Unclear => {
                        if within.len() == 0 {
                            Some(finish_file(files, plan, verdicts, FileVerdict::Skipped, None))
                        } else {
                            let stage = FileStage::Edits(scope, contents, Vec::new());
                            let action = FileAction::ApplyBatches {
                                file: at,
                                batches: within,
                                safety: plan.safety,
                            };
                            Some(stay(files, plan, verdicts, stage, action))
                        }
                    },
                    FixOutcome::Refused(e) => {
                        Some(finish_file(files, plan, verdicts, FileVerdict::Skipped, Some(e)))
                    },
                    FixOutcome::Write(content) => {
                        let action = FileAction::Write { file: at, content };
                        Some(stay(files, plan, verdicts, FileStage::Write, action))
                    },
                }
            },
            (FileStage::Write, FileEvent::Written(ok)) => {
                let verdict = if ok {
                    FileVerdict::Changed
                } else {
                    FileVerdict::Left
                };
                Some(finish_file(files, plan, verdicts, verdict, None))
            },
            _ => None,
        }
    }
}

/// The step that waits for `stage`, at the same file.
fn stay(
    files: Vec<ChangeType>,
    plan: FixPlan,
    verdicts: Vec<FileVerdict>,
    stage: FileStage,
    action: FileAction,
) -> (r: FileStep)
    ensures
        r == (FileStep {
            run: LineRun { files, plan, verdicts, stage },
            action,
            refused: None,
        }),
{
    FileStep { run: LineRun { files, plan, verdicts, stage }, action, refused: None }
}

/// Turns to the file behind those that are done.
fn turn_to_file(
    files: Vec<ChangeType>,
    plan: FixPlan,
    verdicts: Vec<FileVerdict>,
    refused: Option<MergeError>,
) -> (r: FileStep)
    requires
        verdicts@.len() <= files@.len(),
    ensures
        r.run.files == files,
        r.run.plan == plan,
        r.run.verdicts == verdicts,
        r.refused == refused,
        r.run.wf(),
        begins_file(r.run, r.action),
{
    let at = verdicts.len();
    let (stage, action) = if at >= files.len() {
        (FileStage::Over, FileAction::Finish)
    } else {
        match files[at] {
            ChangeType::Added => (FileStage::Contents(FixScope::WholeFile), FileAction::Read(at)),
            ChangeType::Modified => (FileStage::Ranges, FileAction::GetRanges(at)),
        }
    };
    FileStep { run: LineRun { files, plan, verdicts, stage }, action, refused }
}

/// Notes what became of the file, and turns to the next.
fn finish_file(
    files: Vec<ChangeType>,
    plan: FixPlan,
    verdicts: Vec<FileVerdict>,
    verdict: FileVerdict,
    refused: Option<MergeError>,
) -> (r: FileStep)
    requires
        verdicts@.len() < files@.len(),
    ensures
        r.run.files == files,
        r.run.plan == plan,
        r.run.verdicts@ == verdicts@.push(verdict),
        r.refused == refused,
        r.run.wf(),
        begins_file(r.run, r.action),
{
    let mut verdicts = verdicts;
    verdicts.push(verdict);
    turn_to_file(files, plan, verdicts, refused)
}

} // verus!
