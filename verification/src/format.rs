//! The format command: which steps it takes, in which order, and how it ends.
//!
//! The command says what is to be done next, and goes on when it is told how that went.
//! Where something cannot be done, the command ends there with the error.
use crate::format_run::{
    FormatFileAction, FormatFileEvent, FormatFileStep, FormatRun, FormatStage,
};
use crate::lint::Sources;
use crate::notice::Notice;
use crate::status::ExitStatus;
use crate::verdict::{changed_files, skipped_files, FileVerdict};
use vstd::prelude::*;

verus! {

/// What the format command was asked to do.
#[derive(Debug)]
pub struct FormatCommand {
    /// Files and directories to format in place of the configured ones.
    pub path: Vec<std::path::PathBuf>,
    /// Show what would change, and write nothing.
    pub dry_run: bool,
    /// Only find out whether files need formatting.
    pub check: bool,
    /// Format what is read from the standard input.
    pub stdin_input: bool,
    /// Format the files that are staged in git, and stage them again.
    pub staged: bool,
    /// Format only the staged lines of staged files.
    pub staged_lines: bool,
    /// Do not stage formatted files again.
    pub no_stage: bool,
}

/// What the format command waits for.
#[derive(Debug)]
pub enum FormatState {
    /// That the files are loaded.
    Loading,
    /// The formatted standard input.
    Stdin,
    /// That the files are formatted.
    Formatting,
    /// That so many changes are written, or shown.
    Committing(usize),
    /// That the files are loaded of which the staged ones are to be formatted.
    LoadingStaged,
    /// The number of staged files, none of which has unstaged changes.
    StagedFiles,
    /// That the staged files are formatted.
    FormattingStaged,
    /// That so many changes to staged files are written.
    CommittingStaged(usize),
    /// That so many formatted files are staged again.
    Restaging(usize),
    /// That the files are loaded of which staged lines are to be formatted.
    LoadingLines,
    /// The number of staged files, whose staged lines are to be formatted.
    LineFiles,
    /// That none of so many staged files has unstaged changes.
    CleanLineFiles(usize),
    /// The next step of a run over the staged lines.
    Lines(FormatRun),
    /// Nothing: the command is over.
    Over,
}

/// What the format command wants to be done.
#[derive(Debug)]
pub enum FormatAction {
    /// Load the files.
    Load(Sources),
    /// Read the standard input and format it.
    FormatStdin,
    /// Print this text, and end.
    Print { text: String, status: ExitStatus },
    /// Format all files.
    FormatAll,
    /// Write the changes, or only show them.
    Commit { dry_run: bool },
    /// Find the staged files, and make sure that none has unstaged changes.
    GetStagedCleanFiles,
    /// Format the staged files.
    FormatStaged,
    /// Stage the files that were formatted.
    StageChanged,
    /// Find the staged files.
    GetStagedFiles,
    /// Make sure that no staged file has unstaged changes.
    EnsureClean,
    /// Do this with a file of the run.
    File(FormatFileAction),
    /// Stage the files of the run at these positions.
    StageFiles(Vec<usize>),
    /// End, and tell the user something.
    Finish(ExitStatus, Option<Notice>),
}

/// How an action went.
#[derive(Debug)]
pub enum FormatEvent {
    /// The files are loaded.
    Loaded,
    /// The standard input is formatted already.
    StdinUnchanged { input: String },
    /// The standard input, formatted.
    StdinChanged { output: String },
    /// The standard input could not be parsed.
    StdinUnparsable,
    /// So many files need formatting.
    Formatted(usize),
    /// The changes are written, or shown.
    Committed,
    /// So many files are staged.
    StagedFiles(usize),
    /// No staged file has unstaged changes.
    Clean,
    /// How an action on a file of the run went.
    File(FormatFileEvent),
    /// The files are staged.
    Staged,
}

/// What follows an event.
#[derive(Debug)]
pub struct FormatStep {
    /// What the command now waits for.
    pub state: FormatState,
    /// What it wants to be done.
    pub action: FormatAction,
}

/// The command ends.
pub open spec fn format_ends(step: FormatStep, status: ExitStatus, notice: Option<Notice>) -> bool {
    step.state is Over && step.action == FormatAction::Finish(status, notice)
}

/// The first step of the command. Files are loaded unless it formats the standard input.
pub open spec fn format_begins(command: FormatCommand, step: FormatStep) -> bool {
    if command.staged {
        step.state is LoadingStaged && step.action == FormatAction::Load(Sources::Configured)
    } else if command.staged_lines {
        step.state is LoadingLines && step.action == FormatAction::Load(Sources::Configured)
    } else if command.stdin_input {
        step.state is Stdin && step.action is FormatStdin
    } else if command.path@.len() > 0 {
        step.state is Loading && step.action == FormatAction::Load(Sources::Given)
    } else {
        step.state is Loading && step.action == FormatAction::Load(Sources::Configured)
    }
}

/// What follows once all files are formatted and `n` need to change.
pub open spec fn all_formatted(command: FormatCommand, n: usize, step: FormatStep) -> bool {
    if n == 0 {
        format_ends(step, ExitStatus::Success, Some(Notice::AllFormatted))
    } else if command.check {
        format_ends(step, ExitStatus::Failure, Some(Notice::NeedFormatting(n)))
    } else {
        &&& step.state == FormatState::Committing(n)
        &&& step.action == (FormatAction::Commit { dry_run: command.dry_run })
    }
}

/// What follows once a run over staged lines has finished.
pub open spec fn format_run_over(
    verdicts: Seq<FileVerdict>,
    no_stage: bool,
    step: FormatStep,
) -> bool {
    let changed = crate::verdict::changed(verdicts);
    let skipped = crate::verdict::skipped(verdicts);
    if changed.len() > 0 && !no_stage {
        &&& step.state == FormatState::Restaging(changed.len() as usize)
        &&& step.action matches FormatAction::StageFiles(files)
        &&& crate::verdict::positions(files@) == changed
    } else if changed.len() > 0 {
        format_ends(
            step,
            ExitStatus::Success,
            Some(Notice::FormattedUnstaged(changed.len() as usize)),
        )
    } else if skipped > 0 {
        format_ends(step, ExitStatus::Success, Some(Notice::StagedFormatChecked(skipped as usize)))
    } else {
        format_ends(step, ExitStatus::Success, Some(Notice::StagedLinesFormatted))
    }
}

/// The command takes over a step of its run.
pub open spec fn format_takes_over(
    command: FormatCommand,
    run_step: FormatFileStep,
    step: FormatStep,
) -> bool {
    if !(run_step.run.stage is Over) {
        &&& step.state == FormatState::Lines(run_step.run)
        &&& step.action == FormatAction::File(run_step.action)
    } else {
        format_run_over(run_step.run.verdicts@, command.no_stage, step)
    }
}

/// The command starts a run over so many files.
pub open spec fn starts_format(command: FormatCommand, n: usize, step: FormatStep) -> bool {
    exists|first: FormatFileStep|
        {
            &&& first.run.wf()
            &&& first.run.total == n
            &&& first.run.verdicts@.len() == 0
            &&& crate::format_run::begins_format(first.run, first.action)
            &&& #[trigger] format_takes_over(command, first, step)
        }
}

/// The command goes on with its run.
pub open spec fn continues_format(
    command: FormatCommand,
    run: FormatRun,
    event: FormatFileEvent,
    step: FormatStep,
) -> bool {
    exists|next: FormatFileStep|
        {
            &&& next.run.wf()
            &&& crate::format_run::format_file_follows(run, event, next)
            &&& #[trigger] format_takes_over(command, next, step)
        }
}

/// The event is what the command waits for.
pub open spec fn format_answers(state: FormatState, event: FormatEvent) -> bool {
    match state {
        FormatState::Loading | FormatState::LoadingStaged
        | FormatState::LoadingLines => event is Loaded,
        FormatState::Stdin => event is StdinUnchanged || event is StdinChanged
            || event is StdinUnparsable,
        FormatState::Formatting | FormatState::FormattingStaged => event is Formatted,
        FormatState::Committing(_) | FormatState::CommittingStaged(_) => event is Committed,
        FormatState::StagedFiles | FormatState::LineFiles => event is StagedFiles,
        FormatState::CleanLineFiles(_) => event is Clean,
        FormatState::Restaging(_) => event is Staged,
        FormatState::Lines(run) => match event {
            FormatEvent::File(e) => crate::format_run::format_file_answers(run, e),
            _ => false,
        },
        FormatState::Over => false,
    }
}

/// What follows an event that the command waits for.
pub open spec fn format_follows(
    command: FormatCommand,
    state: FormatState,
    event: FormatEvent,
    step: FormatStep,
) -> bool {
    match (state, event) {
        (FormatState::Loading, FormatEvent::Loaded) => {
            step.state is Formatting && step.action is FormatAll
        },
        (FormatState::Stdin, FormatEvent::StdinUnchanged { input }) => {
            &&& step.state is Over
            &&& step.action == (FormatAction::Print { text: input, status: ExitStatus::Success })
        },
        (FormatState::Stdin, FormatEvent::StdinChanged { output }) => {
            &&& step.state is Over
            &&& step.action == (FormatAction::Print { text: output, status: ExitStatus::Success })
        },
        (FormatState::Stdin, FormatEvent::StdinUnparsable) => format_ends(
            step,
            ExitStatus::Error,
            None,
        ),
        (FormatState::Formatting, FormatEvent::Formatted(n)) => all_formatted(command, n, step),
        (FormatState::Committing(n), FormatEvent::Committed) => if command.dry_run {
            format_ends(step, ExitStatus::Success, Some(Notice::WouldFormat(n)))
        } else {
            format_ends(step, ExitStatus::Success, Some(Notice::Formatted(n)))
        },
        (FormatState::LoadingStaged, FormatEvent::Loaded) => {
            step.state is StagedFiles && step.action is GetStagedCleanFiles
        },
        (FormatState::StagedFiles, FormatEvent::StagedFiles(n)) => if n == 0 {
            format_ends(step, ExitStatus::Success, Some(Notice::NoStagedFilesToFormat))
        } else {
            step.state is FormattingStaged && step.action is FormatStaged
        },
        (FormatState::FormattingStaged, FormatEvent::Formatted(n)) => if n == 0 {
            format_ends(step, ExitStatus::Success, Some(Notice::AllStagedFormatted))
        } else {
            &&& step.state == FormatState::CommittingStaged(n)
            &&& step.action == (FormatAction::Commit { dry_run: false })
        },
        (FormatState::CommittingStaged(n), FormatEvent::Committed) => {
            step.state == FormatState::Restaging(n) && step.action is StageChanged
        },
        (FormatState::Restaging(n), FormatEvent::Staged) => format_ends(
            step,
            ExitStatus::Success,
            Some(Notice::FormattedAndRestaged(n)),
        ),
        (FormatState::LoadingLines, FormatEvent::Loaded) => {
            step.state is LineFiles && step.action is GetStagedFiles
        },
        (FormatState::LineFiles, FormatEvent::StagedFiles(n)) => if n == 0 {
            format_ends(step, ExitStatus::Success, Some(Notice::NoStagedFilesToFormat))
        } else {
            step.state == FormatState::CleanLineFiles(n) && step.action is EnsureClean
        },
        (FormatState::CleanLineFiles(n), FormatEvent::Clean) => starts_format(command, n, step),
        (FormatState::Lines(run), FormatEvent::File(e)) => continues_format(command, run, e, step),
        _ => false,
    }
}

/// A run that the state holds is at one of its files.
pub open spec fn format_wf(state: FormatState) -> bool {
    match state {
        FormatState::Lines(run) => run.wf(),
        _ => true,
    }
}

/// The last step.
fn end(status: ExitStatus, notice: Option<Notice>) -> (r: FormatStep)
    ensures
        format_ends(r, status, notice),
{
    to(FormatState::Over, FormatAction::Finish(status, notice))
}

/// A step.
fn to(state: FormatState, action: FormatAction) -> (r: FormatStep)
    ensures
        r == (FormatStep { state, action }),
{
    FormatStep { state, action }
}

impl FormatCommand {
    /// Begins the command.
    pub fn execute(&self) -> (r: FormatStep)
        ensures
            format_begins(*self, r),
            format_wf(r.state),
    {
        if self.staged {
            to(FormatState::LoadingStaged, FormatAction::Load(Sources::Configured))
        } else if self.staged_lines {
            to(FormatState::LoadingLines, FormatAction::Load(Sources::Configured))
        } else if self.stdin_input {
            to(FormatState::Stdin, FormatAction::FormatStdin)
        } else if self.path.len() > 0 {
            to(FormatState::Loading, FormatAction::Load(Sources::Given))
        } else {
            to(FormatState::Loading, FormatAction::Load(Sources::Configured))
        }
    }

    /// Goes on after an event. Nothing follows an event that the command does not wait for.
    pub fn resume(&self, state: FormatState, event: FormatEvent) -> (r: Option<FormatStep>)
        requires
            format_wf(state),
        ensures
            r is Some <==> format_answers(state, event),
            r matches Some(step) ==> format_wf(step.state) && format_follows(
                *self,
                state,
                event,
                step,
            ),
    {
        match (state, event) {
            (FormatState::Loading, FormatEvent::Loaded) => {
                Some(to(FormatState::Formatting, FormatAction::FormatAll))
            },
            (FormatState::Stdin, FormatEvent::StdinUnchanged { input }) => {
                let action = FormatAction::Print { text: input, status: ExitStatus::Success };
                Some(to(FormatState::Over, action))
            },
            (FormatState::Stdin, FormatEvent::StdinChanged { output }) => {
                let action = FormatAction::Print { text: output, status: ExitStatus::Success };
                Some(to(FormatState::Over, action))
            },
            (FormatState::Stdin, FormatEvent::StdinUnparsable) => {
                Some(end(ExitStatus::Error, None))
            },
            (FormatState::Formatting, FormatEvent::Formatted(n)) => {
                if n == 0 {
                    Some(end(ExitStatus::Success, Some(Notice::AllFormatted)))
                } else if self.check {
                    Some(end(ExitStatus::Failure, Some(Notice::NeedFormatting(n))))
                } else {
                    let action = FormatAction::Commit { dry_run: self.dry_run };
                    Some(to(FormatState::Committing(n), action))
                }
            },
            (FormatState::Committing(n), FormatEvent::Committed) => {
                if self.dry_run {
                    Some(end(ExitStatus::Success, Some(Notice::WouldFormat(n))))
                } else {
                    Some(end(ExitStatus::Success, Some(Notice::Formatted(n))))
                }
            },
            (FormatState::LoadingStaged, FormatEvent::Loaded) => {
                Some(to(FormatState::StagedFiles, FormatAction::GetStagedCleanFiles))
            },
            (FormatState::StagedFiles, FormatEvent::StagedFiles(n)) => {
                if n == 0 {
                    Some(end(ExitStatus::Success, Some(Notice::NoStagedFilesToFormat)))
                } else {
                    Some(to(FormatState::FormattingStaged, FormatAction::FormatStaged))
                }
            },
            (FormatState::FormattingStaged, FormatEvent::Formatted(n)) => {
                if n == 0 {
                    Some(end(ExitStatus::Success, Some(Notice::AllStagedFormatted)))
                } else {
                    let action = FormatAction::Commit { dry_run: false };
                    Some(to(FormatState::CommittingStaged(n), action))
                }
            },
            (FormatState::CommittingStaged(n), FormatEvent::Committed) => {
                Some(to(FormatState::Restaging(n), FormatAction::StageChanged))
            },
            (FormatState::Restaging(n), FormatEvent::Staged) => {
                Some(end(ExitStatus::Success, Some(Notice::FormattedAndRestaged(n))))
            },
            (FormatState::LoadingLines, FormatEvent::Loaded) => {
                Some(to(FormatState::LineFiles, FormatAction::GetStagedFiles))
            },
            (FormatState::LineFiles, FormatEvent::StagedFiles(n)) => {
                if n == 0 {
                    Some(end(ExitStatus::Success, Some(Notice::NoStagedFilesToFormat)))
                } else {
                    Some(to(FormatState::CleanLineFiles(n), FormatAction::EnsureClean))
                }
            },
            (FormatState::CleanLineFiles(n), FormatEvent::Clean) => {
                Some(self.take_over(FormatRun::start(n)))
            },
            (FormatState::Lines(run), FormatEvent::File(e)) => {
                match run.step(e) {
                    Some(next) => Some(self.take_over(next)),
                    None => None,
                }
            },
            _ => None,
        }
    }

    /// Takes over a step of a run.
    fn take_over(&self, run_step: FormatFileStep) -> (r: FormatStep)
        requires
            run_step.run.wf(),
        ensures
            format_takes_over(*self, run_step, r),
            format_wf(r.state),
    {
        let FormatFileStep { run, action } = run_step;
        let over = match run.stage {
            FormatStage::Over => true,
            _ => false,
        };
        if !over {
            return to(FormatState::Lines(run), FormatAction::File(action));
        }
        let files = changed_files(&run.verdicts);
        let skipped = skipped_files(&run.verdicts);
        let changed = files.len();
        assert(changed == crate::verdict::changed(run.verdicts@).len());
        if changed > 0 && !self.no_stage {
            to(FormatState::Restaging(changed), FormatAction::StageFiles(files))
        } else if changed > 0 {
            end(ExitStatus::Success, Some(Notice::FormattedUnstaged(changed)))
        } else if skipped > 0 {
            end(ExitStatus::Success, Some(Notice::StagedFormatChecked(skipped)))
        } else {
            end(ExitStatus::Success, Some(Notice::StagedLinesFormatted))
        }
    }
}

} // verus!
