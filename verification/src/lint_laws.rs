//! What holds of every course that the lint command can take.
use crate::line_run::{FileAction, FileEvent, FileStep, LineRun};
use crate::lint::{LintAction, LintCommand, LintEvent, LintState, LintStep};
use crate::status::ExitStatus;
use crate::verdict::FileVerdict;
use vstd::prelude::*;

verus! {

/// The steps that the command has taken, and the event that led to each but the first.
pub struct LintCourse {
    pub steps: Seq<LintStep>,
    pub events: Seq<LintEvent>,
}

/// Step `i + 1` of the course follows from step `i`.
pub open spec fn goes_on(command: LintCommand, course: LintCourse, i: int) -> bool {
    let state = course.steps[i].state;
    let next = course.steps[i + 1];
    &&& crate::lint::lint_answers(state, course.events[i])
    &&& crate::lint::lint_follows(command, state, course.events[i], next)
    &&& crate::lint::lint_wf(next.state)
}

/// The command can take this course.
pub open spec fn can_take(command: LintCommand, course: LintCourse) -> bool {
    &&& course.steps.len() == course.events.len() + 1
    &&& crate::lint::lint_begins(command, course.steps[0])
    &&& forall|i: int| 0 <= i < course.events.len() ==> #[trigger] goes_on(command, course, i)
}

/// The command lints or fixes files, or loads them to do so.
pub open spec fn handles_files(action: LintAction) -> bool {
    action is Load || action is Lint || action is File
}

/// The command has not yet made sure that staged files are clean.
pub open spec fn unchecked(course: LintCourse, n: int) -> bool {
    forall|j: int| 0 <= j <= n ==> !((#[trigger] course.steps[j]).action is EnsureClean)
}

proof fn lemma_unchecked(command: LintCommand, course: LintCourse, n: int)
    requires
        can_take(command, course),
        command.staged && !command.stdin_input && command.reporting.fix
            || takes_staged_lines(command),
        0 <= n < course.steps.len(),
        unchecked(course, n),
    ensures
        !handles_files(course.steps[n].action),
        course.steps[n].state is StagedFiles || course.steps[n].state is LineFiles
            || course.steps[n].state is Over,
        course.steps[n].state is StagedFiles ==> command.reporting.fix,
    decreases n,
{
    if n > 0 {
        lemma_unchecked(command, course, n - 1);
        assert(goes_on(command, course, n - 1));
        assert(!(course.steps[n].action is EnsureClean));
    }
}

/// Before staged files are loaded to be fixed, or to work on their staged lines, it has been
/// made sure that they have no unstaged changes.
pub proof fn staged_files_are_clean_before_they_are_fixed(
    command: LintCommand,
    course: LintCourse,
    n: int,
)
    requires
        can_take(command, course),
        command.staged && !command.stdin_input && command.reporting.fix
            || takes_staged_lines(command),
        0 <= n < course.steps.len(),
        handles_files(course.steps[n].action),
    ensures
        exists|j: int| 0 <= j < n && (#[trigger] course.steps[j]).action is EnsureClean,
{
    if unchecked(course, n) {
        lemma_unchecked(command, course, n);
    }
}

/// The state belongs to linting whole files.
pub open spec fn is_whole_state(state: LintState) -> bool {
    state is StagedFiles || state is CleanFiles || state is Loading || state is Explaining
        || state is Listing || state is Linting || state is Staging || state is Over
}

/// The state belongs to fixing staged lines.
pub open spec fn is_staged_lines_state(state: LintState) -> bool {
    state is LineFiles || state is CleanLineFiles || state is LoadingLines || state is StagedRun
        || state is Restaging || state is Over
}

/// The state belongs to fixing the lines of the last commit.
pub open spec fn is_commit_state(state: LintState) -> bool {
    state is CommitFiles || state is LoadingCommit || state is CommitRun || state is Over
}

/// The command is to lint whole files.
pub open spec fn takes_whole_files(command: LintCommand) -> bool {
    command.staged && !command.stdin_input || !command.staged_lines && !command.last_commit
}

/// The command is to fix staged lines.
pub open spec fn takes_staged_lines(command: LintCommand) -> bool {
    !(command.staged && !command.stdin_input) && command.staged_lines
}

/// A command has one of three ways to go, and keeps to it.
pub proof fn commands_keep_to_their_way(command: LintCommand, course: LintCourse, n: int)
    requires
        can_take(command, course),
        0 <= n < course.steps.len(),
    ensures
        takes_whole_files(command) ==> is_whole_state(course.steps[n].state),
        takes_staged_lines(command) ==> is_staged_lines_state(course.steps[n].state),
        !takes_whole_files(command) && !takes_staged_lines(command) ==> is_commit_state(
            course.steps[n].state,
        ),
    decreases n,
{
    if n > 0 {
        commands_keep_to_their_way(command, course, n - 1);
        assert(goes_on(command, course, n - 1));
    }
}

/// Explaining a rule and listing the rules lint nothing.
pub proof fn explaining_and_listing_lint_nothing(
    command: LintCommand,
    course: LintCourse,
    n: int,
)
    requires
        can_take(command, course),
        command.explain is Some || command.list_rules,
        takes_whole_files(command),
        0 <= n < course.steps.len(),
    ensures
        !(course.steps[n].action is Lint),
        !(course.steps[n].action is File),
        !(course.steps[n].state is Linting),
        !(course.steps[n].state is Staging),
        is_whole_state(course.steps[n].state),
    decreases n,
{
    if n > 0 {
        explaining_and_listing_lint_nothing(command, course, n - 1);
        assert(goes_on(command, course, n - 1));
    }
}

/// Whether whole files are linted or changed lines: rules run exactly if the command was not
/// asked for semantics only, and where it names rules, only those.
pub proof fn rules_run_as_they_are_wanted(
    command: LintCommand,
    course: LintCourse,
    n: int,
)
    requires
        can_take(command, course),
        0 <= n < course.steps.len(),
    ensures
        course.steps[n].action matches LintAction::Lint { mode, filtered } ==> (mode
            == crate::lint::LintMode::Full <==> !command.semantics) && (filtered
            <==> command.only@.len() > 0),
        run_of(course.steps[n].state) matches Some(run) ==> run.plan == crate::lint::plan_of(
            command,
        ),
        course.steps[n].action matches LintAction::File(
            FileAction::Lint { mode, filtered, .. },
        ) ==> (mode == crate::lint::LintMode::Full <==> !command.semantics) && (filtered
            <==> command.only@.len() > 0),
    decreases n,
{
    if n > 0 {
        rules_run_as_they_are_wanted(command, course, n - 1);
        assert(goes_on(command, course, n - 1));
    }
}

/// Nothing is staged unless the command was asked to work on what is staged, and nothing is
/// staged again if it was asked not to.
pub proof fn nothing_is_staged_unasked(command: LintCommand, course: LintCourse, n: int)
    requires
        can_take(command, course),
        0 <= n < course.steps.len(),
    ensures
        course.steps[n].action is StageChanged ==> command.staged,
        course.steps[n].action is StageFiles ==> command.staged_lines && !command.no_stage,
{
    if n > 0 {
        commands_keep_to_their_way(command, course, n - 1);
        assert(goes_on(command, course, n - 1));
    }
}

/// Without the flag to fix, a command about changed lines loads, writes and stages nothing.
pub proof fn changed_lines_need_the_flag_to_fix(
    command: LintCommand,
    course: LintCourse,
    n: int,
)
    requires
        can_take(command, course),
        !takes_whole_files(command),
        !command.reporting.fix,
        0 <= n < course.steps.len(),
    ensures
        !handles_files(course.steps[n].action),
        !(course.steps[n].action is StageFiles),
        !(course.steps[n].action is StageChanged),
        course.steps[n].state is LineFiles || course.steps[n].state is CleanLineFiles
            || course.steps[n].state is CommitFiles || course.steps[n].state is Over,
    decreases n,
{
    if n > 0 {
        changed_lines_need_the_flag_to_fix(command, course, n - 1);
        assert(goes_on(command, course, n - 1));
    }
}

/// A command ends with success whatever issues were found. Only a rule that is to be
/// explained and does not exist is a failure.
pub proof fn issues_are_no_failure(command: LintCommand, course: LintCourse, n: int)
    requires
        can_take(command, course),
        0 <= n < course.steps.len(),
    ensures
        course.steps[n].action matches LintAction::Finish(status, _) ==> status
            == ExitStatus::Success,
        course.steps[n].action matches LintAction::Show { status, .. } ==> status
            == ExitStatus::Success || command.explain is Some,
{
    if n > 0 {
        assert(goes_on(command, course, n - 1));
    }
}

/// The run of a state.
pub open spec fn run_of(state: LintState) -> Option<LineRun> {
    match state {
        LintState::StagedRun(run) => Some(run),
        LintState::CommitRun(run) => Some(run),
        _ => None,
    }
}

/// The action writes the file.
pub open spec fn writes(action: LintAction, file: int) -> bool {
    match action {
        LintAction::File(FileAction::Write { file: written, .. }) => written == file,
        _ => false,
    }
}

/// A file was written before step `n`.
pub open spec fn was_written(course: LintCourse, n: int, file: int) -> bool {
    exists|j: int|
        0 <= j < n && writes((#[trigger] course.steps[j]).action, file) && course.events[j]
            == LintEvent::File(FileEvent::Written(true))
}

/// Every file with the verdict that it changed was written.
pub open spec fn changed_were_written(
    course: LintCourse,
    n: int,
    verdicts: Seq<FileVerdict>,
) -> bool {
    forall|file: int|
        0 <= file < verdicts.len() && #[trigger] verdicts[file] == FileVerdict::Changed
            ==> was_written(course, n, file)
}

proof fn lemma_written_stays(course: LintCourse, n: int, verdicts: Seq<FileVerdict>)
    requires
        n >= 0,
        changed_were_written(course, n, verdicts),
    ensures
        changed_were_written(course, n + 1, verdicts),
{
    assert forall|file: int|
        0 <= file < verdicts.len() && #[trigger] verdicts[file]
            == FileVerdict::Changed implies was_written(course, n + 1, file) by {
        assert(was_written(course, n, file));
    }
}

/// At every step of a run its action suits its stage, and what it counts as changed was
/// written.
pub open spec fn run_is_in_step(course: LintCourse, n: int) -> bool {
    run_of(course.steps[n].state) matches Some(run) ==> {
        &&& course.steps[n].action matches LintAction::File(action)
        &&& crate::line_laws::calls_for(run, action)
        &&& changed_were_written(course, n, run.verdicts@)
    }
}

proof fn lemma_run_starts(course: LintCourse, n: int, command: LintCommand, commit: bool, first: FileStep)
    requires
        0 <= n < course.steps.len(),
        first.run.wf(),
        first.run.verdicts@.len() == 0,
        crate::line_run::begins_file(first.run, first.action),
        crate::lint::takes_over(command, commit, first, course.steps[n]),
    ensures
        run_is_in_step(course, n),
{
    assert(first.run.verdicts.len() == first.run.verdicts@.len());
}

proof fn lemma_run_goes_on(
    course: LintCourse,
    n: int,
    command: LintCommand,
    run: LineRun,
    event: FileEvent,
    commit: bool,
    next: FileStep,
)
    requires
        0 < n < course.steps.len(),
        run_of(course.steps[n - 1].state) == Some(run),
        course.events[n - 1] == LintEvent::File(event),
        run_is_in_step(course, n - 1),
        run.wf(),
        next.run.wf(),
        crate::line_run::follows(run, event, next),
        crate::lint::takes_over(command, commit, next, course.steps[n]),
    ensures
        run_is_in_step(course, n),
        changed_were_written(course, n, next.run.verdicts@),
{
    crate::line_laws::actions_suit_the_stage(run, event, next);
    lemma_written_stays(course, n - 1, run.verdicts@);
    let at = run.verdicts@.len() as int;
    if next.run.verdicts@.len() > run.verdicts@.len() {
        assert forall|file: int|
            0 <= file < next.run.verdicts@.len() && #[trigger] next.run.verdicts@[file]
                == FileVerdict::Changed implies was_written(course, n, file) by {
            if file < at {
                assert(run.verdicts@[file] == FileVerdict::Changed);
            } else {
                assert(event == FileEvent::Written(true));
                assert(writes(course.steps[n - 1].action, file));
            }
        }
    }
}

proof fn lemma_run_is_in_step(command: LintCommand, course: LintCourse, n: int)
    requires
        can_take(command, course),
        0 <= n < course.steps.len(),
    ensures
        run_is_in_step(course, n),
    decreases n,
{
    if n > 0 {
        lemma_run_is_in_step(command, course, n - 1);
        let before = course.steps[n - 1];
        let event = course.events[n - 1];
        let step = course.steps[n];
        assert(goes_on(command, course, n - 1));
        lemma_state_is_wf(command, course, n - 1);
        match (before.state, event) {
            (LintState::StagedRun(run), LintEvent::File(e)) => {
                let next = choose|next: FileStep|
                    {
                        &&& next.run.wf()
                        &&& crate::line_run::follows(run, e, next)
                        &&& #[trigger] crate::lint::takes_over(command, false, next, step)
                    };
                lemma_run_goes_on(course, n, command, run, e, false, next);
            },
            (LintState::CommitRun(run), LintEvent::File(e)) => {
                let next = choose|next: FileStep|
                    {
                        &&& next.run.wf()
                        &&& crate::line_run::follows(run, e, next)
                        &&& #[trigger] crate::lint::takes_over(command, true, next, step)
                    };
                lemma_run_goes_on(course, n, command, run, e, true, next);
            },
            (LintState::LoadingLines(_), LintEvent::Loaded { .. }) => {
                let first = choose|first: FileStep|
                    {
                        &&& first.run.wf()
                        &&& first.run.verdicts@.len() == 0
                        &&& crate::line_run::begins_file(first.run, first.action)
                        &&& #[trigger] crate::lint::takes_over(command, false, first, step)
                    };
                lemma_run_starts(course, n, command, false, first);
            },
            (LintState::LoadingCommit(_), LintEvent::Loaded { .. }) => {
                let first = choose|first: FileStep|
                    {
                        &&& first.run.wf()
                        &&& first.run.verdicts@.len() == 0
                        &&& crate::line_run::begins_file(first.run, first.action)
                        &&& #[trigger] crate::lint::takes_over(command, true, first, step)
                    };
                lemma_run_starts(course, n, command, true, first);
            },
            _ => {},
        }
    }
}

proof fn lemma_state_is_wf(command: LintCommand, course: LintCourse, n: int)
    requires
        can_take(command, course),
        0 <= n < course.steps.len(),
    ensures
        crate::lint::lint_wf(course.steps[n].state),
{
    if n > 0 {
        assert(goes_on(command, course, n - 1));
    }
}

/// The files that are staged again are files that the command has written.
pub proof fn restaged_files_were_written(
    command: LintCommand,
    course: LintCourse,
    n: int,
    k: int,
)
    requires
        can_take(command, course),
        0 <= n < course.steps.len(),
        course.steps[n].action is StageFiles,
        0 <= k < course.steps[n].action->StageFiles_0@.len(),
    ensures
        was_written(course, n, course.steps[n].action->StageFiles_0@[k] as int),
{
    let step = course.steps[n];
    let files = step.action->StageFiles_0@;
    let before = course.steps[n - 1];
    assert(n > 0);
    let event = course.events[n - 1];
    assert(goes_on(command, course, n - 1));
    lemma_run_is_in_step(command, course, n - 1);
    lemma_state_is_wf(command, course, n - 1);
    let verdicts = match (before.state, event) {
        (LintState::StagedRun(run), LintEvent::File(e)) => {
            let next = choose|next: FileStep|
                {
                    &&& next.run.wf()
                    &&& crate::line_run::follows(run, e, next)
                    &&& #[trigger] crate::lint::takes_over(command, false, next, step)
                };
            lemma_run_goes_on(course, n, command, run, e, false, next);
            next.run.verdicts@
        },
        (LintState::CommitRun(run), LintEvent::File(e)) => { run.verdicts@ },
        (LintState::LoadingLines(_), LintEvent::Loaded { .. }) => {
            let first = choose|first: FileStep|
                {
                    &&& first.run.wf()
                    &&& first.run.verdicts@.len() == 0
                    &&& #[trigger] crate::lint::takes_over(command, false, first, step)
                };
            first.run.verdicts@
        },
        _ => { seq![] },
    };
    assert(crate::verdict::positions(files) == crate::verdict::changed(verdicts));
    assert(crate::verdict::positions(files)[k] == files[k]);
    crate::verdict::changed_lists_the_changed_files(verdicts);
    assert(crate::verdict::changed(verdicts).contains(files[k] as int));
    assert(verdicts[files[k] as int] == FileVerdict::Changed);
}

} // verus!
