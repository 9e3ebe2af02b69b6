//! What the format command does next, event by event.
use crate::format::{FormatAction, FormatCommand, FormatEvent, FormatState, FormatStep};
use crate::format_run::{FormatFileEvent, FormatFileStep, FormatRun};
use crate::lint::Sources;
use crate::notice::Notice;
use crate::status::ExitStatus;
use crate::verdict::FileVerdict;
use vstd::prelude::*;

verus! {

/// The command is over, with this status, and tells this.
pub open spec fn is_over(step: FormatStep, status: ExitStatus, notice: Option<Notice>) -> bool {
    step.state is Over && step.action == FormatAction::Finish(status, notice)
}

/// The command begins with what its flags ask for: staged files before staged lines, those
/// before the standard input, and that before other files, which are the given ones if any
/// are given. For what is staged the configured files are loaded.
pub proof fn format_begins_as_asked(command: FormatCommand, step: FormatStep)
    requires
        crate::format::format_begins(command, step),
    ensures
        command.staged ==> step.state is LoadingStaged && step.action == FormatAction::Load(
            Sources::Configured,
        ),
        !command.staged && command.staged_lines ==> step.state is LoadingLines && step.action
            == FormatAction::Load(Sources::Configured),
        !command.staged && !command.staged_lines && command.stdin_input ==> step.state is Stdin
            && step.action is FormatStdin,
        !command.staged && !command.staged_lines && !command.stdin_input ==> step.state is Loading
            && step.action == FormatAction::Load(
            if command.path@.len() > 0 {
                Sources::Given
            } else {
                Sources::Configured
            },
        ),
{
}

/// What was read from the standard input is printed formatted, or as it was if formatting
/// left it so. If it cannot be parsed nothing is printed, and that is an error.
pub proof fn the_standard_input_is_printed_formatted(
    command: FormatCommand,
    text: String,
    step: FormatStep,
)
    ensures
        crate::format::format_follows(
            command,
            FormatState::Stdin,
            FormatEvent::StdinChanged { output: text },
            step,
        ) ==> step.state is Over && step.action == (FormatAction::Print {
            text,
            status: ExitStatus::Success,
        }),
        crate::format::format_follows(
            command,
            FormatState::Stdin,
            FormatEvent::StdinUnchanged { input: text },
            step,
        ) ==> step.state is Over && step.action == (FormatAction::Print {
            text,
            status: ExitStatus::Success,
        }),
        crate::format::format_follows(
            command,
            FormatState::Stdin,
            FormatEvent::StdinUnparsable,
            step,
        ) ==> is_over(step, ExitStatus::Error, None),
{
}

/// All files are formatted. A check fails if any needed it, and says how many. Otherwise the
/// changes are committed, or only shown in a dry run, and their number is told.
pub proof fn all_files_are_formatted(command: FormatCommand, n: usize, step: FormatStep)
    ensures
        crate::format::format_follows(command, FormatState::Loading, FormatEvent::Loaded, step)
            ==> step.state is Formatting && step.action is FormatAll,
        crate::format::format_follows(
            command,
            FormatState::Formatting,
            FormatEvent::Formatted(n),
            step,
        ) ==> {
            &&& n == 0 ==> is_over(step, ExitStatus::Success, Some(Notice::AllFormatted))
            &&& n > 0 && command.check ==> is_over(
                step,
                ExitStatus::Failure,
                Some(Notice::NeedFormatting(n)),
            )
            &&& n > 0 && !command.check ==> step.state == FormatState::Committing(n) && step.action
                == (FormatAction::Commit { dry_run: command.dry_run })
        },
        crate::format::format_follows(
            command,
            FormatState::Committing(n),
            FormatEvent::Committed,
            step,
        ) ==> is_over(
            step,
            ExitStatus::Success,
            Some(
                if command.dry_run {
                    Notice::WouldFormat(n)
                } else {
                    Notice::Formatted(n)
                },
            ),
        ),
{
}

/// Staged files, if there are any, are formatted, and if that changed some of them, these are
/// written and staged again.
pub proof fn staged_files_are_formatted(command: FormatCommand, n: usize, step: FormatStep)
    ensures
        crate::format::format_follows(command, FormatState::LoadingStaged, FormatEvent::Loaded, step)
            ==> step.state is StagedFiles && step.action is GetStagedCleanFiles,
        crate::format::format_follows(
            command,
            FormatState::StagedFiles,
            FormatEvent::StagedFiles(n),
            step,
        ) ==> {
            &&& n == 0 ==> is_over(step, ExitStatus::Success, Some(Notice::NoStagedFilesToFormat))
            &&& n > 0 ==> step.state is FormattingStaged && step.action is FormatStaged
        },
        crate::format::format_follows(
            command,
            FormatState::FormattingStaged,
            FormatEvent::Formatted(n),
            step,
        ) ==> {
            &&& n == 0 ==> is_over(step, ExitStatus::Success, Some(Notice::AllStagedFormatted))
            &&& n > 0 ==> step.state == FormatState::CommittingStaged(n) && step.action
                == (FormatAction::Commit { dry_run: false })
        },
        crate::format::format_follows(
            command,
            FormatState::CommittingStaged(n),
            FormatEvent::Committed,
            step,
        ) ==> step.state == FormatState::Restaging(n) && step.action is StageChanged,
        crate::format::format_follows(command, FormatState::Restaging(n), FormatEvent::Staged, step)
            ==> is_over(step, ExitStatus::Success, Some(Notice::FormattedAndRestaged(n))),
{
}

/// A run is at its next file, or it is over, and then what it changed decides what is told:
/// how many files were formatted, or else how many were skipped, or else that all lines were
/// formatted. Changed files are staged again unless that is not wanted.
pub open spec fn takes_up(
    command: FormatCommand,
    run_step: FormatFileStep,
    step: FormatStep,
) -> bool {
    let verdicts = run_step.run.verdicts@;
    let changed = crate::line_step_laws::tally(verdicts, FileVerdict::Changed) as usize;
    let skipped = crate::line_step_laws::tally(verdicts, FileVerdict::Skipped) as usize;
    &&& !(run_step.run.stage is Over) ==> step.state == FormatState::Lines(run_step.run)
        && step.action == FormatAction::File(run_step.action)
    &&& run_step.run.stage is Over && (changed == 0 || command.no_stage) ==> is_over(
        step,
        ExitStatus::Success,
        Some(
            if changed > 0 {
                Notice::FormattedUnstaged(changed)
            } else if skipped > 0 {
                Notice::StagedFormatChecked(skipped)
            } else {
                Notice::StagedLinesFormatted
            },
        ),
    )
    &&& run_step.run.stage is Over && changed > 0 && !command.no_stage ==> {
        &&& step.state == FormatState::Restaging(changed)
        &&& step.action matches FormatAction::StageFiles(files)
        &&& crate::line_step_laws::names_the_changed(files@, verdicts)
    }
}

proof fn lemma_takes_up(command: FormatCommand, run_step: FormatFileStep, step: FormatStep)
    requires
        run_step.run.verdicts@.len() <= usize::MAX,
        crate::format::format_takes_over(command, run_step, step),
    ensures
        takes_up(command, run_step, step),
{
    let verdicts = run_step.run.verdicts@;
    crate::line_step_laws::verdicts_are_tallied(verdicts);
    if run_step.run.stage is Over && crate::verdict::changed(verdicts).len() > 0
        && !command.no_stage {
        crate::line_step_laws::lemma_names_the_changed(step.action->StageFiles_0@, verdicts);
    }
}

/// Before staged lines are formatted it is made sure that the files are clean.
pub proof fn staged_lines_are_formatted_if_clean(command: FormatCommand, n: usize, step: FormatStep)
    ensures
        crate::format::format_follows(command, FormatState::LoadingLines, FormatEvent::Loaded, step)
            ==> step.state is LineFiles && step.action is GetStagedFiles,
        crate::format::format_follows(
            command,
            FormatState::LineFiles,
            FormatEvent::StagedFiles(n),
            step,
        ) ==> {
            &&& n == 0 ==> is_over(step, ExitStatus::Success, Some(Notice::NoStagedFilesToFormat))
            &&& n > 0 ==> step.state == FormatState::CleanLineFiles(n) && step.action is EnsureClean
        },
{
}

/// Then a run over all of these files begins.
pub proof fn clean_files_are_run_over(command: FormatCommand, n: usize, step: FormatStep) -> (first:
    FormatFileStep)
    requires
        crate::format::format_follows(
            command,
            FormatState::CleanLineFiles(n),
            FormatEvent::Clean,
            step,
        ),
    ensures
        takes_up(command, first, step),
        first.run.total == n,
        first.run.verdicts@.len() == 0,
        crate::format_run::begins_format(first.run, first.action),
{
    let first = choose|first: FormatFileStep|
        {
            &&& first.run.wf()
            &&& first.run.total == n
            &&& first.run.verdicts@.len() == 0
            &&& crate::format_run::begins_format(first.run, first.action)
            &&& #[trigger] crate::format::format_takes_over(command, first, step)
        };
    lemma_takes_up(command, first, step);
    first
}

/// A run goes on with every event about its file.
pub proof fn format_runs_go_on(
    command: FormatCommand,
    run: FormatRun,
    event: FormatFileEvent,
    step: FormatStep,
) -> (next: FormatFileStep)
    requires
        crate::format::format_follows(
            command,
            FormatState::Lines(run),
            FormatEvent::File(event),
            step,
        ),
    ensures
        crate::format_run::format_file_follows(run, event, next),
        next.run.wf(),
        takes_up(command, next, step),
{
    let next = choose|next: FormatFileStep|
        {
            &&& next.run.wf()
            &&& crate::format_run::format_file_follows(run, event, next)
            &&& #[trigger] crate::format::format_takes_over(command, next, step)
        };
    lemma_takes_up(command, next, step);
    next
}

/// At each state the command waits for one kind of event, and for no other; of the standard
/// input, for how formatting went, and of a run, for what the run waits for. When it is over
/// it waits for nothing.
pub proof fn format_waits_for_what_it_asked(state: FormatState, event: FormatEvent)
    ensures
        ({
            let answers = crate::format::format_answers(state, event);
            &&& state is Loading || state is LoadingStaged || state is LoadingLines ==> (answers
                <==> event is Loaded)
            &&& state is Stdin ==> (answers <==> event is StdinUnchanged || event is StdinChanged
                || event is StdinUnparsable)
            &&& state is Formatting || state is FormattingStaged ==> (answers <==> event
                is Formatted)
            &&& state is Committing || state is CommittingStaged ==> (answers <==> event
                is Committed)
            &&& state is StagedFiles || state is LineFiles ==> (answers <==> event is StagedFiles)
            &&& state is CleanLineFiles ==> (answers <==> event is Clean)
            &&& state is Restaging ==> (answers <==> event is Staged)
            &&& state is Over ==> !answers
            &&& state matches FormatState::Lines(run) ==> (answers <==> event is File
                && crate::format_run::format_file_answers(run, event->File_0))
        }),
{
}

} // verus!
