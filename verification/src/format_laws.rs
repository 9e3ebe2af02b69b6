//! What holds of every course that the format command can take.
use crate::format::{FormatAction, FormatCommand, FormatEvent, FormatState, FormatStep};
use crate::format_run::{FormatFileAction, FormatFileEvent, FormatFileStep, FormatRun};
use crate::status::ExitStatus;
use crate::verdict::FileVerdict;
use vstd::prelude::*;

verus! {

/// The steps that the command has taken, and the event that led to each but the first.
pub struct FormatCourse {
    pub steps: Seq<FormatStep>,
    pub events: Seq<FormatEvent>,
}

/// Step `i + 1` of the course follows from step `i`.
pub open spec fn goes_on(command: FormatCommand, course: FormatCourse, i: int) -> bool {
    let state = course.steps[i].state;
    let next = course.steps[i + 1];
    &&& crate::format::format_answers(state, course.events[i])
    &&& crate::format::format_follows(command, state, course.events[i], next)
    &&& crate::format::format_wf(next.state)
}

/// The command can take this course.
pub open spec fn can_take(command: FormatCommand, course: FormatCourse) -> bool {
    &&& course.steps.len() == course.events.len() + 1
    &&& crate::format::format_begins(command, course.steps[0])
    &&& forall|i: int| 0 <= i < course.events.len() ==> #[trigger] goes_on(command, course, i)
}

/// The action changes files.
pub open spec fn changes_files(action: FormatAction) -> bool {
    match action {
        FormatAction::Commit { dry_run } => !dry_run,
        FormatAction::File(FormatFileAction::Write { .. }) => true,
        _ => false,
    }
}

/// The state belongs to formatting whole files.
pub open spec fn is_whole_state(state: FormatState) -> bool {
    state is Loading || state is Stdin || state is Formatting || state is Committing
        || state is Over
}

/// The state belongs to formatting staged files.
pub open spec fn is_staged_state(state: FormatState) -> bool {
    state is LoadingStaged || state is StagedFiles || state is FormattingStaged
        || state is CommittingStaged || state is Restaging || state is Over
}

/// The state belongs to formatting staged lines.
pub open spec fn is_lines_state(state: FormatState) -> bool {
    state is LoadingLines || state is LineFiles || state is CleanLineFiles || state is Lines
        || state is Restaging || state is Over
}

/// A command is about whole files, staged files or staged lines, and keeps to that.
pub proof fn commands_keep_to_their_way(command: FormatCommand, course: FormatCourse, n: int)
    requires
        can_take(command, course),
        0 <= n < course.steps.len(),
    ensures
        command.staged ==> is_staged_state(course.steps[n].state),
        !command.staged && command.staged_lines ==> is_lines_state(course.steps[n].state),
        !command.staged && !command.staged_lines ==> is_whole_state(course.steps[n].state),
    decreases n,
{
    if n > 0 {
        commands_keep_to_their_way(command, course, n - 1);
        assert(goes_on(command, course, n - 1));
    }
}

/// A check, a dry run and a command that formats the standard input change no files.
pub proof fn checks_and_dry_runs_change_no_files(
    command: FormatCommand,
    course: FormatCourse,
    n: int,
)
    requires
        can_take(command, course),
        !command.staged && !command.staged_lines,
        command.check || command.dry_run || command.stdin_input,
        0 <= n < course.steps.len(),
    ensures
        !changes_files(course.steps[n].action),
        command.stdin_input ==> course.steps[n].state is Stdin || course.steps[n].state is Over,
    decreases n,
{
    if n > 0 {
        checks_and_dry_runs_change_no_files(command, course, n - 1);
        commands_keep_to_their_way(command, course, n - 1);
        assert(goes_on(command, course, n - 1));
    }
}

/// Formatting the standard input loads no files.
pub proof fn the_standard_input_needs_no_files(
    command: FormatCommand,
    course: FormatCourse,
    n: int,
)
    requires
        can_take(command, course),
        !command.staged && !command.staged_lines && command.stdin_input,
        0 <= n < course.steps.len(),
    ensures
        !(course.steps[n].action is Load),
{
    if n > 0 {
        checks_and_dry_runs_change_no_files(command, course, n - 1);
        assert(goes_on(command, course, n - 1));
    }
}

/// Only a check can end with failure, and it does so exactly if files need formatting.
pub proof fn only_checks_fail(command: FormatCommand, course: FormatCourse, n: int)
    requires
        can_take(command, course),
        0 <= n < course.steps.len(),
    ensures
        course.steps[n].action matches FormatAction::Finish(status, _) && status
            == ExitStatus::Failure ==> command.check && !command.staged && !command.staged_lines,
        course.steps[n].action matches FormatAction::Print { status, .. } ==> status
            == ExitStatus::Success,
{
    if n > 0 {
        commands_keep_to_their_way(command, course, n - 1);
        assert(goes_on(command, course, n - 1));
    }
}

/// A check fails exactly if files need formatting.
pub proof fn checks_fail_if_files_need_formatting(
    command: FormatCommand,
    course: FormatCourse,
    n: int,
)
    requires
        can_take(command, course),
        !command.staged && !command.staged_lines && !command.stdin_input,
        command.check,
        0 <= n < course.steps.len(),
    ensures
        course.steps[n].action matches FormatAction::Finish(status, _) ==> n > 0
            && course.events[n - 1] is Formatted && (status == ExitStatus::Success
            <==> course.events[n - 1] == FormatEvent::Formatted(0)) && (status
            == ExitStatus::Failure <==> course.events[n - 1] != FormatEvent::Formatted(0)),
        !(course.steps[n].state is Committing),
        !(course.steps[n].state is Stdin),
    decreases n,
{
    if n > 0 {
        checks_fail_if_files_need_formatting(command, course, n - 1);
        commands_keep_to_their_way(command, course, n - 1);
        assert(goes_on(command, course, n - 1));
    }
}

/// The command has not yet made sure that staged files are clean.
pub open spec fn unchecked(course: FormatCourse, n: int) -> bool {
    forall|j: int|
        0 <= j <= n ==> !((#[trigger] course.steps[j]).action is EnsureClean) && !(
        course.steps[j].action is GetStagedCleanFiles)
}

proof fn lemma_unchecked(command: FormatCommand, course: FormatCourse, n: int)
    requires
        can_take(command, course),
        command.staged || command.staged_lines,
        0 <= n < course.steps.len(),
        unchecked(course, n),
    ensures
        !changes_files(course.steps[n].action),
        course.steps[n].state is LoadingStaged || course.steps[n].state is LoadingLines
            || course.steps[n].state is LineFiles || course.steps[n].state is Over,
    decreases n,
{
    if n > 0 {
        lemma_unchecked(command, course, n - 1);
        assert(goes_on(command, course, n - 1));
        assert(!(course.steps[n].action is EnsureClean));
    }
}

/// Before staged files are changed, it has been made sure that they have no unstaged
/// changes.
pub proof fn staged_files_are_clean_before_they_change(
    command: FormatCommand,
    course: FormatCourse,
    n: int,
)
    requires
        can_take(command, course),
        command.staged || command.staged_lines,
        0 <= n < course.steps.len(),
        changes_files(course.steps[n].action),
    ensures
        exists|j: int|
            0 <= j < n && ((#[trigger] course.steps[j]).action is EnsureClean
                || course.steps[j].action is GetStagedCleanFiles),
{
    if unchecked(course, n) {
        lemma_unchecked(command, course, n);
    }
}

/// The action writes the file.
pub open spec fn writes(action: FormatAction, file: int) -> bool {
    match action {
        FormatAction::File(FormatFileAction::Write { file: written, .. }) => written == file,
        _ => false,
    }
}

/// A file was written before step `n`.
pub open spec fn was_written(course: FormatCourse, n: int, file: int) -> bool {
    exists|j: int|
        0 <= j < n && writes((#[trigger] course.steps[j]).action, file) && course.events[j]
            == FormatEvent::File(FormatFileEvent::Written(true))
}

/// Every file with the verdict that it changed was written.
pub open spec fn changed_were_written(
    course: FormatCourse,
    n: int,
    verdicts: Seq<FileVerdict>,
) -> bool {
    forall|file: int|
        0 <= file < verdicts.len() && #[trigger] verdicts[file] == FileVerdict::Changed
            ==> was_written(course, n, file)
}

/// At every step of a run its action suits its stage, and what it counts as changed was
/// written.
pub open spec fn run_is_in_step(course: FormatCourse, n: int) -> bool {
    course.steps[n].state matches FormatState::Lines(run) ==> {
        &&& course.steps[n].action matches FormatAction::File(action)
        &&& crate::format_run::format_calls_for(run, action)
        &&& changed_were_written(course, n, run.verdicts@)
    }
}

proof fn lemma_run_goes_on(
    course: FormatCourse,
    n: int,
    command: FormatCommand,
    run: FormatRun,
    event: FormatFileEvent,
    next: FormatFileStep,
)
    requires
        0 < n < course.steps.len(),
        course.steps[n - 1].state == FormatState::Lines(run),
        course.events[n - 1] == FormatEvent::File(event),
        run_is_in_step(course, n - 1),
        run.wf(),
        next.run.wf(),
        crate::format_run::format_file_answers(run, event),
        crate::format_run::format_file_follows(run, event, next),
        crate::format::format_takes_over(command, next, course.steps[n]),
    ensures
        run_is_in_step(course, n),
        changed_were_written(course, n, next.run.verdicts@),
{
    crate::format_run::format_actions_suit_the_stage(run, event, next);
    let at = run.verdicts@.len() as int;
    assert forall|file: int|
        0 <= file < next.run.verdicts@.len() && #[trigger] next.run.verdicts@[file]
            == FileVerdict::Changed implies was_written(course, n, file) by {
        if file < at {
            assert(run.verdicts@[file] == FileVerdict::Changed);
            assert(was_written(course, n - 1, file));
        } else {
            assert(event == FormatFileEvent::Written(true));
            assert(writes(course.steps[n - 1].action, file));
        }
    }
}

proof fn lemma_state_is_wf(command: FormatCommand, course: FormatCourse, n: int)
    requires
        can_take(command, course),
        0 <= n < course.steps.len(),
    ensures
        crate::format::format_wf(course.steps[n].state),
{
    if n > 0 {
        assert(goes_on(command, course, n - 1));
    }
}

proof fn lemma_run_is_in_step(command: FormatCommand, course: FormatCourse, n: int)
    requires
        can_take(command, course),
        0 <= n < course.steps.len(),
    ensures
        run_is_in_step(course, n),
    decreases n,
{
    if n > 0 {
        lemma_run_is_in_step(command, course, n - 1);
        lemma_state_is_wf(command, course, n - 1);
        assert(goes_on(command, course, n - 1));
        let step = course.steps[n];
        match (course.steps[n - 1].state, course.events[n - 1]) {
            (FormatState::Lines(run), FormatEvent::File(e)) => {
                let next = choose|next: FormatFileStep|
                    {
                        &&& next.run.wf()
                        &&& crate::format_run::format_file_follows(run, e, next)
                        &&& #[trigger] crate::format::format_takes_over(command, next, step)
                    };
                lemma_run_goes_on(course, n, command, run, e, next);
            },
            (FormatState::CleanLineFiles(_), FormatEvent::Clean) => {
                let first = choose|first: FormatFileStep|
                    {
                        &&& first.run.wf()
                        &&& first.run.verdicts@.len() == 0
                        &&& crate::format_run::begins_format(first.run, first.action)
                        &&& #[trigger] crate::format::format_takes_over(command, first, step)
                    };
                assert(first.run.verdicts@.len() == 0);
            },
            _ => {},
        }
    }
}

/// The files that are staged again are files that the command has written.
pub proof fn restaged_files_were_written(
    command: FormatCommand,
    course: FormatCourse,
    n: int,
    k: int,
)
    requires
        can_take(command, course),
        0 <= n < course.steps.len(),
        course.steps[n].action is StageFiles,
        0 <= k < course.steps[n].action->StageFiles_0@.len(),
    ensures
        was_written(course, n, course.steps[n].action->StageFiles_0@[k] as int),
{
    let step = course.steps[n];
    let files = step.action->StageFiles_0@;
    assert(n > 0);
    assert(goes_on(command, course, n - 1));
    lemma_run_is_in_step(command, course, n - 1);
    lemma_state_is_wf(command, course, n - 1);
    let verdicts = match (course.steps[n - 1].state, course.events[n - 1]) {
        (FormatState::Lines(run), FormatEvent::File(e)) => {
            let next = choose|next: FormatFileStep|
                {
                    &&& next.run.wf()
                    &&& crate::format_run::format_file_follows(run, e, next)
                    &&& #[trigger] crate::format::format_takes_over(command, next, step)
                };
            lemma_run_goes_on(course, n, command, run, e, next);
            next.run.verdicts@
        },
        (FormatState::CleanLineFiles(_), FormatEvent::Clean) => {
            let first = choose|first: FormatFileStep|
                {
                    &&& first.run.wf()
                    &&& first.run.verdicts@.len() == 0
                    &&& #[trigger] crate::format::format_takes_over(command, first, step)
                };
            first.run.verdicts@
        },
        _ => { seq![] },
    };
    assert(crate::verdict::positions(files) == crate::verdict::changed(verdicts));
    assert(crate::verdict::positions(files)[k] == files[k]);
    crate::verdict::changed_lists_the_changed_files(verdicts);
    assert(crate::verdict::changed(verdicts).contains(files[k] as int));
    assert(verdicts[files[k] as int] == FileVerdict::Changed);
}

} // verus!
