//! What holds of every course that the analyze command can take.
use crate::analyze::{AnalyzeAction, AnalyzeCommand, AnalyzeEvent, AnalyzeState, AnalyzeStep};
use crate::issue_run::{Changes, IssueEvent, IssueRun, IssueStage, IssueStep};
use crate::status::ExitStatus;
use vstd::prelude::*;

verus! {

/// The steps that the command has taken, and the event that led to each but the first.
pub struct AnalyzeCourse {
    pub steps: Seq<AnalyzeStep>,
    pub events: Seq<AnalyzeEvent>,
}

/// Step `i + 1` of the course follows from step `i`.
pub open spec fn goes_on(command: AnalyzeCommand, course: AnalyzeCourse, i: int) -> bool {
    let state = course.steps[i].state;
    let next = course.steps[i + 1];
    &&& crate::analyze::analyze_answers(state, course.events[i])
    &&& crate::analyze::analyze_follows(command, state, course.events[i], next)
    &&& crate::analyze::analyze_wf(next.state)
}

/// The command can take this course.
pub open spec fn can_take(command: AnalyzeCommand, course: AnalyzeCourse) -> bool {
    &&& course.steps.len() == course.events.len() + 1
    &&& crate::analyze::analyze_begins(command, course.steps[0])
    &&& forall|i: int| 0 <= i < course.events.len() ==> #[trigger] goes_on(command, course, i)
}

/// The command analyzes files, or loads them to do so.
pub open spec fn handles_files(action: AnalyzeAction) -> bool {
    action is Load || action is Analyze || action is FindIssues || action is Report
}

/// The command is about staged lines.
pub open spec fn takes_staged_lines(command: AnalyzeCommand) -> bool {
    !(command.staged && !command.stdin_input) && command.staged_lines
}

/// The command has not yet made sure that staged files are clean.
pub open spec fn unchecked(course: AnalyzeCourse, n: int) -> bool {
    forall|j: int| 0 <= j <= n ==> !((#[trigger] course.steps[j]).action is EnsureClean)
}

proof fn lemma_unchecked(command: AnalyzeCommand, course: AnalyzeCourse, n: int)
    requires
        can_take(command, course),
        command.staged && !command.stdin_input && command.reporting.fix
            || takes_staged_lines(command),
        0 <= n < course.steps.len(),
        unchecked(course, n),
    ensures
        !handles_files(course.steps[n].action),
        course.steps[n].state is StagedFiles || course.steps[n].state is LineFiles
            || course.steps[n].state is Codes || course.steps[n].state is Over,
        course.steps[n].state is StagedFiles ==> command.reporting.fix,
    decreases n,
{
    if n > 0 {
        lemma_unchecked(command, course, n - 1);
        assert(goes_on(command, course, n - 1));
        assert(!(course.steps[n].action is EnsureClean));
    }
}

/// Before staged files are loaded to be fixed, or to work on their staged lines, it has been
/// made sure that they have no unstaged changes.
pub proof fn staged_files_are_clean_before_they_are_fixed(
    command: AnalyzeCommand,
    course: AnalyzeCourse,
    n: int,
)
    requires
        can_take(command, course),
        command.staged && !command.stdin_input && command.reporting.fix
            || takes_staged_lines(command),
        0 <= n < course.steps.len(),
        handles_files(course.steps[n].action),
    ensures
        exists|j: int| 0 <= j < n && (#[trigger] course.steps[j]).action is EnsureClean,
{
    if unchecked(course, n) {
        lemma_unchecked(command, course, n);
    }
}

/// A command with codes for the flag that only the linter has does nothing but complain,
/// and one that is to list the issue codes does nothing but that.
pub proof fn complaints_and_lists_analyze_nothing(
    command: AnalyzeCommand,
    course: AnalyzeCourse,
    n: int,
)
    requires
        can_take(command, course),
        command.only@.len() > 0 || command.list_codes,
        0 <= n < course.steps.len(),
    ensures
        command.only@.len() > 0 ==> n == 0,
        !handles_files(course.steps[n].action),
        course.steps[n].state is Codes || course.steps[n].state is Over,
    decreases n,
{
    if n > 0 {
        complaints_and_lists_analyze_nothing(command, course, n - 1);
        assert(goes_on(command, course, n - 1));
    }
}

/// Stubs are loaded exactly if they are wanted.
pub proof fn stubs_are_loaded_if_wanted(command: AnalyzeCommand, course: AnalyzeCourse, n: int)
    requires
        can_take(command, course),
        0 <= n < course.steps.len(),
    ensures
        course.steps[n].action matches AnalyzeAction::Load { stubs, .. } ==> stubs
            == !command.no_stubs,
{
    if n > 0 {
        assert(goes_on(command, course, n - 1));
    }
}

/// What an event says is why an issue is kept: it is in a new file, or it touches changed
/// lines.
pub open spec fn says_keep(run: IssueRun, event: IssueEvent) -> bool {
    match (run.stage, event) {
        (IssueStage::Place, IssueEvent::Located(place)) => crate::issue_run::is_new(
            run.changes,
            place.path@,
        ),
        (IssueStage::Ranges(start_line, end_line), IssueEvent::Ranges(ranges)) => {
            crate::fix::touched(ranges@, start_line, end_line)
        },
        _ => false,
    }
}

/// Step `j` was at the issue, and its event said that it is to be kept.
pub open spec fn keeps_issue(course: AnalyzeCourse, j: int, issue: int) -> bool {
    match (course.steps[j].state, course.events[j]) {
        (AnalyzeState::Sifting(run), AnalyzeEvent::Issue(e)) => run.kept@.len() == issue
            && says_keep(run, e),
        _ => false,
    }
}

/// The issue was kept for a reason given before step `n`.
pub open spec fn was_kept(course: AnalyzeCourse, n: int, issue: int) -> bool {
    exists|j: int| 0 <= j < n && #[trigger] keeps_issue(course, j, issue)
}

/// Every issue that is kept was kept for a reason given before step `n`.
pub open spec fn kept_for_a_reason(course: AnalyzeCourse, n: int, kept: Seq<bool>) -> bool {
    forall|i: int|
        0 <= i < kept.len() && #[trigger] kept[i] ==> was_kept(course, n, i)
}

proof fn lemma_sifting(
    course: AnalyzeCourse,
    n: int,
    run: IssueRun,
    event: IssueEvent,
    next: IssueStep,
)
    requires
        0 <= n,
        course.steps[n].state == AnalyzeState::Sifting(run),
        course.events[n] == AnalyzeEvent::Issue(event),
        kept_for_a_reason(course, n, run.kept@),
        crate::issue_run::issue_follows(run, event, next),
    ensures
        kept_for_a_reason(course, n + 1, next.run.kept@),
{
    assert forall|i: int|
        0 <= i < next.run.kept@.len() && #[trigger] next.run.kept@[i] implies was_kept(
        course,
        n + 1,
        i,
    ) by {
        if i < run.kept@.len() {
            assert(run.kept@[i]);
            let j = choose|j: int| 0 <= j < n && #[trigger] keeps_issue(course, j, i);
            assert(keeps_issue(course, j, i));
        } else {
            assert(keeps_issue(course, n, i));
        }
    }
}

/// Whatever a step after a run reports or goes on with was kept for a reason.
pub open spec fn sifted_for_a_reason(course: AnalyzeCourse, n: int) -> bool {
    &&& course.steps[n].state matches AnalyzeState::Sifting(run) ==> kept_for_a_reason(
        course,
        n,
        run.kept@,
    )
    &&& course.steps[n].action matches AnalyzeAction::Report(issues) ==> forall|k: int|
        0 <= k < issues@.len() ==> was_kept(course, n, (#[trigger] issues@[k]) as int)
}

proof fn lemma_sift(course: AnalyzeCourse, n: int, next: IssueStep)
    requires
        0 <= n,
        kept_for_a_reason(course, n, next.run.kept@),
        crate::analyze::sifts(next, course.steps[n]),
    ensures
        sifted_for_a_reason(course, n),
{
    match course.steps[n].action {
        AnalyzeAction::Report(issues) => {
            let kept = next.run.kept@;
            let chosen = |i: int| kept[i];
            assert forall|k: int| 0 <= k < issues@.len() implies was_kept(
                course,
                n,
                (#[trigger] issues@[k]) as int,
            ) by {
                assert(chosen(issues@[k] as int));
                assert(kept[issues@[k] as int]);
            }
        },
        _ => {},
    }
}

proof fn lemma_sifted(command: AnalyzeCommand, course: AnalyzeCourse, n: int)
    requires
        can_take(command, course),
        0 <= n < course.steps.len(),
    ensures
        sifted_for_a_reason(course, n),
    decreases n,
{
    if n > 0 {
        lemma_sifted(command, course, n - 1);
        assert(goes_on(command, course, n - 1));
        let step = course.steps[n];
        match (course.steps[n - 1].state, course.events[n - 1]) {
            (AnalyzeState::Sifting(run), AnalyzeEvent::Issue(e)) => {
                let next = choose|next: IssueStep|
                    {
                        &&& next.run.wf()
                        &&& crate::issue_run::issue_follows(run, e, next)
                        &&& #[trigger] crate::analyze::sifts(next, step)
                    };
                lemma_sifting(course, n - 1, run, e, next);
                lemma_sift(course, n, next);
            },
            (AnalyzeState::AnalyzingLines(changes), AnalyzeEvent::Issues(total)) => {
                let first = choose|first: IssueStep|
                    {
                        &&& first.run.wf()
                        &&& first.run.kept@.len() == 0
                        &&& #[trigger] crate::analyze::sifts(first, step)
                    };
                lemma_sift(course, n, first);
            },
            _ => {},
        }
    }
}

/// Where only changed lines count, every issue that is reported is in a new file or touches
/// changed lines.
pub proof fn reported_issues_are_in_changed_lines(
    command: AnalyzeCommand,
    course: AnalyzeCourse,
    n: int,
    k: int,
)
    requires
        can_take(command, course),
        0 <= n < course.steps.len(),
        course.steps[n].action is Report,
        0 <= k < course.steps[n].action->Report_0@.len(),
    ensures
        was_kept(course, n, course.steps[n].action->Report_0@[k] as int),
{
    lemma_sifted(command, course, n);
}

/// Only staged lines count.
pub open spec fn counts_staged(changes: Changes) -> bool {
    changes is Staged
}

/// The state belongs to analyzing whole files, or to none at all.
pub open spec fn is_whole_state(state: AnalyzeState) -> bool {
    state is Codes || state is StagedFiles || state is CleanFiles || state is Loading
        || state is Analyzing || state is Staging || state is Over
}

/// The state belongs to issues in lines that count as changed, staged or committed.
pub open spec fn is_line_state(state: AnalyzeState, staged: bool) -> bool {
    match state {
        AnalyzeState::LineFiles | AnalyzeState::CleanLineFiles
        | AnalyzeState::ReportingStaged | AnalyzeState::Restaging(_, _) => staged,
        AnalyzeState::CommitFiles | AnalyzeState::ReportingCommit => !staged,
        AnalyzeState::LoadingLines(changes) => counts_staged(changes) == staged,
        AnalyzeState::AnalyzingLines(changes) => counts_staged(changes) == staged,
        AnalyzeState::Sifting(run) => counts_staged(run.changes) == staged,
        AnalyzeState::Over => true,
        _ => false,
    }
}

/// The command is about lines that count as changed.
pub open spec fn takes_lines(command: AnalyzeCommand) -> bool {
    &&& command.only@.len() == 0 && !command.list_codes && !command.watch
    &&& !(command.staged && !command.stdin_input)
    &&& command.staged_lines || command.last_commit
}

/// A command is about whole files, staged lines or lines of the last commit, and keeps to
/// that.
pub proof fn commands_keep_to_their_way(command: AnalyzeCommand, course: AnalyzeCourse, n: int)
    requires
        can_take(command, course),
        0 <= n < course.steps.len(),
    ensures
        takes_lines(command) ==> is_line_state(course.steps[n].state, command.staged_lines),
        !takes_lines(command) ==> is_whole_state(course.steps[n].state),
    decreases n,
{
    if n > 0 {
        commands_keep_to_their_way(command, course, n - 1);
        assert(goes_on(command, course, n - 1));
    }
}

/// Without the flag to fix, a command about changed lines loads, reports and stages nothing.
pub proof fn changed_lines_need_the_flag_to_fix(
    command: AnalyzeCommand,
    course: AnalyzeCourse,
    n: int,
)
    requires
        can_take(command, course),
        takes_lines(command),
        !command.reporting.fix,
        0 <= n < course.steps.len(),
    ensures
        !handles_files(course.steps[n].action),
        !(course.steps[n].action is StageChanged),
        course.steps[n].state is LineFiles || course.steps[n].state is CleanLineFiles
            || course.steps[n].state is CommitFiles || course.steps[n].state is Over,
    decreases n,
{
    if n > 0 {
        changed_lines_need_the_flag_to_fix(command, course, n - 1);
        assert(goes_on(command, course, n - 1));
    }
}

/// The state holds the status that reporting gave before step `n`, if it holds one.
pub open spec fn holds_reported(course: AnalyzeCourse, n: int) -> bool {
    match course.steps[n].state {
        AnalyzeState::Staging(status) => was_reported(course, n, status),
        AnalyzeState::Restaging(status, _) => was_reported(course, n, status),
        _ => true,
    }
}

/// Reporting gave this status before step `n`.
pub open spec fn was_reported(course: AnalyzeCourse, n: int, status: ExitStatus) -> bool {
    exists|j: int|
        0 <= j < n && (#[trigger] course.events[j] matches AnalyzeEvent::Reported {
            status: reported,
            ..
        } && reported == status)
}

proof fn lemma_holds_reported(command: AnalyzeCommand, course: AnalyzeCourse, n: int)
    requires
        can_take(command, course),
        0 <= n < course.steps.len(),
    ensures
        holds_reported(course, n),
{
    if n > 0 {
        assert(goes_on(command, course, n - 1));
        assert(course.events[n - 1] == course.events[n - 1]);
    }
}

/// A command that ends otherwise than with success ends with the status of reporting.
pub proof fn only_reporting_can_fail(command: AnalyzeCommand, course: AnalyzeCourse, n: int)
    requires
        can_take(command, course),
        0 <= n < course.steps.len(),
    ensures
        course.steps[n].action matches AnalyzeAction::Finish(status, _) ==> status
            == ExitStatus::Success || was_reported(course, n, status),
        course.steps[n].action is Reject ==> command.only@.len() > 0,
{
    if n > 0 {
        assert(goes_on(command, course, n - 1));
        lemma_holds_reported(command, course, n - 1);
        assert(course.events[n - 1] == course.events[n - 1]);
    }
}

/// Nothing is staged unless the command was asked to work on what is staged, and nothing is
/// staged again if it was asked not to.
pub proof fn nothing_is_staged_unasked(command: AnalyzeCommand, course: AnalyzeCourse, n: int)
    requires
        can_take(command, course),
        0 <= n < course.steps.len(),
        course.steps[n].action is StageChanged,
    ensures
        takes_lines(command) ==> command.staged_lines && !command.no_stage,
        !takes_lines(command) ==> command.staged,
{
    assert(n > 0);
    commands_keep_to_their_way(command, course, n - 1);
    assert(goes_on(command, course, n - 1));
}

} // verus!
