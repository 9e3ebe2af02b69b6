//! Which issues are reported where only changed lines count, in terms of files and line
//! numbers alone.
use crate::analyze::{AnalyzeAction, AnalyzeCommand, AnalyzeEvent, AnalyzeState, AnalyzeStep};
use crate::analyze_laws::AnalyzeCourse;
use crate::commit::CommitFile;
use crate::fix::ChangeType;
use crate::issue_run::{Changes, IssueAction, IssueEvent, IssueRun, IssueStage, IssueStep, Place};
use crate::merge::LineRange;
use vstd::prelude::*;

verus! {

/// A file counts as source exactly if its extension is one of those given.
pub proof fn sources_have_a_listed_extension(file: CommitFile, extensions: Seq<String>)
    ensures
        crate::commit::is_source(file, extensions) <==> file.extension is Some && exists|k: int|
            0 <= k < extensions.len() && (#[trigger] extensions[k])@ == file.extension->Some_0@,
{
    let texts = crate::text::views(extensions);
    if crate::commit::is_source(file, extensions) {
        let k = choose|k: int| 0 <= k < texts.len() && texts[k] == file.extension->Some_0@;
        assert(extensions[k]@ == file.extension->Some_0@);
    }
    if file.extension is Some && exists|k: int|
        0 <= k < extensions.len() && (#[trigger] extensions[k])@ == file.extension->Some_0@ {
        let k = choose|k: int|
            0 <= k < extensions.len() && (#[trigger] extensions[k])@ == file.extension->Some_0@;
        assert(texts[k] == file.extension->Some_0@);
    }
}

/// Of the files at these positions, the one at `k` is the first with this path.
pub open spec fn is_first_with(
    files: Seq<CommitFile>,
    kept: Seq<usize>,
    path: Seq<Seq<u8>>,
    k: int,
) -> bool {
    &&& 0 <= k < kept.len()
    &&& files[kept[k] as int].path@ == path
    &&& forall|j: int| 0 <= j < k ==> files[#[trigger] kept[j] as int].path@ != path
}

/// A path changed as the first file with it did. A path that no file has was there before.
pub proof fn the_first_file_with_a_path_decides(
    files: Seq<CommitFile>,
    kept: Seq<usize>,
    path: Seq<Seq<u8>>,
)
    ensures
        forall|k: int| #[trigger]
            is_first_with(files, kept, path, k) ==> crate::commit::change_at(files, kept, path)
                == files[kept[k] as int].change,
        (forall|j: int| 0 <= j < kept.len() ==> files[#[trigger] kept[j] as int].path@ != path)
            ==> crate::commit::change_at(files, kept, path) == ChangeType::Modified,
    decreases kept.len(),
{
    if kept.len() > 0 {
        let rest = kept.skip(1);
        the_first_file_with_a_path_decides(files, rest, path);
        assert forall|k: int| #[trigger]
            is_first_with(files, kept, path, k) implies crate::commit::change_at(files, kept, path)
            == files[kept[k] as int].change by {
            if k > 0 {
                assert(files[kept[0] as int].path@ != path);
                assert forall|j: int| 0 <= j < k - 1 implies files[#[trigger] rest[j] as int].path@
                    != path by {
                    assert(rest[j] == kept[j + 1]);
                }
                assert(is_first_with(files, rest, path, k - 1));
            }
        }
        if forall|j: int| 0 <= j < kept.len() ==> files[#[trigger] kept[j] as int].path@ != path {
            assert(files[kept[0] as int].path@ != path);
            assert forall|j: int| 0 <= j < rest.len() implies files[#[trigger] rest[j] as int].path@
                != path by {
                assert(rest[j] == kept[j + 1]);
            }
        }
    }
}

/// The changes of the files at some positions are theirs, one by one.
pub proof fn changes_are_those_of_the_files(files: Seq<CommitFile>, kept: Seq<usize>)
    ensures
        crate::commit::changes(files, kept).len() == kept.len(),
        forall|k: int|
            0 <= k < kept.len() ==> #[trigger] crate::commit::changes(files, kept)[k]
                == files[kept[k] as int].change,
{
}

/// The commit added the file at this path.
pub open spec fn was_added(files: Seq<CommitFile>, kept: Seq<usize>, path: Seq<Seq<u8>>) -> bool {
    exists|k: int| #[trigger]
        is_first_with(files, kept, path, k) && files[kept[k] as int].change == ChangeType::Added
}

/// All lines of the file at this path count as changed.
pub open spec fn counts_whole(changes: Changes, path: Seq<Seq<u8>>) -> bool {
    match changes {
        Changes::Staged => false,
        Changes::Commit(files, kept) => was_added(files@, kept@, path),
    }
}

proof fn lemma_first_with(
    files: Seq<CommitFile>,
    kept: Seq<usize>,
    path: Seq<Seq<u8>>,
    i: int,
) -> (k: int)
    requires
        0 <= i < kept.len(),
        files[kept[i] as int].path@ == path,
    ensures
        is_first_with(files, kept, path, k),
    decreases i,
{
    if forall|j: int| 0 <= j < i ==> files[#[trigger] kept[j] as int].path@ != path {
        i
    } else {
        let j = choose|j: int| 0 <= j < i && files[#[trigger] kept[j] as int].path@ == path;
        lemma_first_with(files, kept, path, j)
    }
}

/// A file counts as new exactly if the first file of the commit with its path was added.
pub proof fn new_files_were_added(changes: Changes, path: Seq<Seq<u8>>)
    ensures
        crate::issue_run::is_new(changes, path) <==> counts_whole(changes, path),
{
    match changes {
        Changes::Staged => {},
        Changes::Commit(files, kept) => {
            the_first_file_with_a_path_decides(files@, kept@, path);
            if crate::issue_run::is_new(changes, path) {
                let i = choose|i: int|
                    0 <= i < kept@.len() && files@[#[trigger] kept@[i] as int].path@ == path;
                let k = lemma_first_with(files@, kept@, path, i);
                assert(is_first_with(files@, kept@, path, k));
            }
        },
    }
}

/// What the event says of the issue that the run is at: that it counts, that it does not, or
/// nothing yet.
pub open spec fn said_of_issue(run: IssueRun, event: IssueEvent) -> Option<bool> {
    match (run.stage, event) {
        (IssueStage::Place, IssueEvent::Located(place)) => if counts_whole(
            run.changes,
            place.path@,
        ) {
            Some(true)
        } else {
            None
        },
        (IssueStage::Ranges(first, last), IssueEvent::Ranges(ranges)) => Some(
            crate::select_laws::meets_a_range(ranges@, first as int, last as int),
        ),
        _ => Some(false),
    }
}

/// An issue with no place, or whose changed lines could not be found, is not kept. One in an
/// added file is. Of any other, the changed lines of its file are asked for, and it is kept
/// exactly if one of their ranges neither starts behind its last line nor ends before its
/// first. Nothing else of the run changes.
pub proof fn issues_are_kept_by_their_lines(run: IssueRun, event: IssueEvent, step: IssueStep)
    requires
        crate::issue_run::issue_answers(run, event),
        crate::issue_run::issue_follows(run, event, step),
    ensures
        step.run.total == run.total,
        step.run.changes == run.changes,
        said_of_issue(run, event) matches Some(keep) ==> step.run.kept@ == run.kept@.push(keep),
        said_of_issue(run, event) is None ==> step.run.kept@ == run.kept@ && step.action
            == IssueAction::GetRanges(run.kept@.len() as usize) && step.run.stage
            == IssueStage::Ranges(
            event->Located_0.start_line,
            event->Located_0.end_line,
        ),
        said_of_issue(run, event) is Some && step.run.kept@.len() < run.total ==> step.action
            == IssueAction::Locate(step.run.kept@.len() as usize) && step.run.stage is Place,
        said_of_issue(run, event) is Some && step.run.kept@.len() >= run.total ==> step.action
            is Finish && step.run.stage is Over,
{
    if event is Located {
        new_files_were_added(run.changes, event->Located_0.path@);
    }
    if event is Ranges && run.stage is Ranges {
        crate::select_laws::lemma_meets(event->Ranges_0@, run.stage->Ranges_0, run.stage->Ranges_1);
    }
}

/// An issue whose changed lines are found is kept exactly if some line of it, from the first
/// to the last, lies in one of the ranges.
pub proof fn issues_with_a_changed_line_are_kept(
    run: IssueRun,
    ranges: Vec<LineRange>,
    step: IssueStep,
)
    requires
        run.stage is Ranges,
        run.stage->Ranges_0 <= run.stage->Ranges_1,
        crate::select_laws::all_upright(ranges@),
        crate::issue_run::issue_follows(run, IssueEvent::Ranges(ranges), step),
    ensures
        step.run.kept@ == run.kept@.push(
            crate::select_laws::share_a_line(
                ranges@,
                run.stage->Ranges_0 as int,
                run.stage->Ranges_1 as int,
            ),
        ),
{
    crate::select_laws::lemma_touched(ranges@, run.stage->Ranges_0, run.stage->Ranges_1);
}

/// After step `m` it is settled whether the issue is reported: the run has noted it, or the
/// report says it, or the report has been made.
pub open spec fn is_settled(step: AnalyzeStep, issue: int, keep: bool) -> bool {
    match step.action {
        AnalyzeAction::Report(issues) => issues@.contains(issue as usize) == keep
            && (step.state is ReportingStaged || step.state is ReportingCommit),
        _ => match step.state {
            AnalyzeState::Sifting(run) => issue < run.kept@.len() <= usize::MAX
                && run.kept@[issue] == keep,
            AnalyzeState::Restaging(_, _) | AnalyzeState::Over => true,
            _ => false,
        },
    }
}

proof fn lemma_sifts_settled(next: IssueStep, step: AnalyzeStep, issue: int, keep: bool)
    requires
        0 <= issue < next.run.kept@.len() <= usize::MAX,
        next.run.kept@[issue] == keep,
        crate::analyze::sifts(next, step),
    ensures
        is_settled(step, issue, keep),
{
    if next.run.stage is Over {
        let kept = next.run.kept@;
        let chosen = |i: int| kept[i];
        let issues = step.action->Report_0@;
        crate::select_laws::lists_name_what_was_chosen(issues, kept.len(), chosen);
        assert(issues.contains(issue as usize) <==> chosen(issue));
    }
}

proof fn lemma_settled(
    command: AnalyzeCommand,
    course: AnalyzeCourse,
    j: int,
    n: int,
    issue: int,
    keep: bool,
)
    requires
        crate::analyze_laws::can_take(command, course),
        0 <= j < n < course.steps.len(),
        0 <= issue,
        is_settled(course.steps[j + 1], issue, keep),
    ensures
        is_settled(course.steps[n], issue, keep),
    decreases n,
{
    if n > j + 1 {
        lemma_settled(command, course, j, n - 1, issue, keep);
        assert(crate::analyze_laws::goes_on(command, course, n - 1));
        let step = course.steps[n];
        match (course.steps[n - 1].state, course.events[n - 1]) {
            (AnalyzeState::Sifting(run), AnalyzeEvent::Issue(e)) => {
                let next = choose|next: IssueStep|
                    {
                        &&& next.run.wf()
                        &&& crate::issue_run::issue_follows(run, e, next)
                        &&& #[trigger] crate::analyze::sifts(next, step)
                    };
                issues_are_kept_by_their_lines(run, e, next);
                lemma_sifts_settled(next, step, issue, keep);
            },
            _ => {},
        }
    }
}

/// Where only changed lines count, the report has an issue exactly if the events said that
/// it counts: it is in an added file, or one of the changed ranges of its file neither starts
/// behind its last line nor ends before its first.
pub proof fn exactly_the_issues_that_count_are_reported(
    command: AnalyzeCommand,
    course: AnalyzeCourse,
    j: int,
    n: int,
)
    requires
        crate::analyze_laws::can_take(command, course),
        0 <= j < n < course.steps.len(),
        course.steps[j].state is Sifting,
        course.events[j] is Issue,
        said_of_issue(course.steps[j].state->Sifting_0, course.events[j]->Issue_0) is Some,
        course.steps[n].action is Report,
    ensures
        course.steps[n].action->Report_0@.contains(
            course.steps[j].state->Sifting_0.kept@.len() as usize,
        ) <==> said_of_issue(
            course.steps[j].state->Sifting_0,
            course.events[j]->Issue_0,
        )->Some_0,
{
    assert(crate::analyze_laws::goes_on(command, course, j));
    let run = course.steps[j].state->Sifting_0;
    let event = course.events[j]->Issue_0;
    let keep = said_of_issue(run, event)->Some_0;
    let step = course.steps[j + 1];
    let next = choose|next: IssueStep|
        {
            &&& next.run.wf()
            &&& crate::issue_run::issue_follows(run, event, next)
            &&& #[trigger] crate::analyze::sifts(next, step)
        };
    issues_are_kept_by_their_lines(run, event, next);
    lemma_sifts_settled(next, step, run.kept@.len() as int, keep);
    lemma_settled(command, course, j, n, run.kept@.len() as int, keep);
}

/// Where only changed lines count, an issue in a file that is not new, whose changed lines
/// are found, is reported if and only if some line of it lies in one of their ranges.
pub proof fn issues_with_a_changed_line_are_reported(
    command: AnalyzeCommand,
    course: AnalyzeCourse,
    j: int,
    n: int,
    first: u32,
    last: u32,
    ranges: Vec<LineRange>,
)
    requires
        crate::analyze_laws::can_take(command, course),
        0 <= j < n < course.steps.len(),
        course.steps[j].state is Sifting,
        course.steps[j].state->Sifting_0.stage == IssueStage::Ranges(first, last),
        course.events[j] == AnalyzeEvent::Issue(IssueEvent::Ranges(ranges)),
        first <= last,
        crate::select_laws::all_upright(ranges@),
        course.steps[n].action is Report,
    ensures
        course.steps[n].action->Report_0@.contains(
            course.steps[j].state->Sifting_0.kept@.len() as usize,
        ) <==> crate::select_laws::share_a_line(ranges@, first as int, last as int),
{
    exactly_the_issues_that_count_are_reported(command, course, j, n);
    crate::select_laws::lemma_touched(ranges@, first, last);
    crate::select_laws::lemma_meets(ranges@, first, last);
}

/// An issue that was located in a file that is not new is asked about next: its changed lines
/// are the next thing that the run waits for, and for the lines of that place.
pub proof fn located_issues_are_asked_about(
    command: AnalyzeCommand,
    course: AnalyzeCourse,
    j: int,
    place: Place,
)
    requires
        crate::analyze_laws::can_take(command, course),
        0 <= j < course.events.len(),
        course.steps[j].state is Sifting,
        course.steps[j].state->Sifting_0.stage is Place,
        course.events[j] == AnalyzeEvent::Issue(IssueEvent::Located(place)),
        !counts_whole(course.steps[j].state->Sifting_0.changes, place.path@),
    ensures
        course.steps[j + 1].state is Sifting,
        course.steps[j + 1].state->Sifting_0.stage == IssueStage::Ranges(
            place.start_line,
            place.end_line,
        ),
        course.steps[j + 1].state->Sifting_0.kept == course.steps[j].state->Sifting_0.kept,
        course.steps[j + 1].action == AnalyzeAction::Issue(
            IssueAction::GetRanges(course.steps[j].state->Sifting_0.kept@.len() as usize),
        ),
{
    assert(crate::analyze_laws::goes_on(command, course, j));
    let run = course.steps[j].state->Sifting_0;
    new_files_were_added(run.changes, place.path@);
}

} // verus!
