//! What the analyze command does next, event by event.
use crate::analyze::{AnalyzeAction, AnalyzeCommand, AnalyzeEvent, AnalyzeState, AnalyzeStep};
use crate::commit::CommitFile;
use crate::issue_run::{Changes, IssueAction, IssueEvent, IssueRun, IssueStep};
use crate::lint::Sources;
use crate::notice::Notice;
use crate::status::ExitStatus;
use vstd::prelude::*;

verus! {

/// The command is over, with this status, and tells this.
pub open spec fn is_over(step: AnalyzeStep, status: ExitStatus, notice: Option<Notice>) -> bool {
    step.state is Over && step.action == AnalyzeAction::Finish(status, notice)
}

/// The codes given to a flag that only the linter has are put into the command that filters
/// by them, each behind the flag that does so.
pub proof fn complaints_suggest_to_retain_the_codes(codes: Seq<Seq<char>>)
    ensures
        crate::analyze::only_complaint(codes)
            == "error: the `--only` flag is not available for the analyzer.\n\n"@
            + "  Unlike the linter, the analyzer is not rule-based and does not support\n"@
            + "  selectively enabling individual checks.\n\n"@
            + "  To filter the output to specific issue codes, use `--retain-code`:\n\n"@
            + "    mago analyze --retain-code "@ + crate::text::join(codes, " --retain-code "@)
            + "\n\n"@
            + "  This runs the full analysis but only reports issues matching the given codes.\n"@
            + "  Use `mago analyze --list-codes` to see all available codes.\n"@,
{
}

/// A command with codes for the flag that only the linter has is rejected. Otherwise codes
/// are listed before anything is watched, and that before anything is analyzed.
pub proof fn analyze_complains_lists_and_watches_first(command: AnalyzeCommand, step: AnalyzeStep)
    requires
        crate::analyze::analyze_begins(command, step),
    ensures
        command.only@.len() > 0 ==> step.state is Over && (step.action
            matches AnalyzeAction::Reject { text, status } && status == ExitStatus::Failure
            && text@ == crate::analyze::only_complaint(
            Seq::new(command.only@.len(), |i: int| command.only@[i]@),
        )),
        command.only@.len() == 0 && command.list_codes ==> step.state is Codes && step.action
            is GetCodes,
        command.only@.len() == 0 && !command.list_codes && command.watch ==> step.state is Over
            && step.action is Watch,
{
    assert(crate::text::views(command.only@) == Seq::new(
        command.only@.len(),
        |i: int| command.only@[i]@,
    ));
}

/// Otherwise the command begins with what its flags ask for: staged files before staged
/// lines, those before lines of the last commit, and those before other files, which are the
/// given ones if any are given. The standard input counts neither as staged nor as given.
pub proof fn analyze_begins_as_asked(command: AnalyzeCommand, step: AnalyzeStep)
    requires
        crate::analyze::analyze_begins(command, step),
        command.only@.len() == 0,
        !command.list_codes,
        !command.watch,
    ensures
        command.staged && !command.stdin_input ==> step.state is StagedFiles && step.action
            is GetStagedFiles,
        (!command.staged || command.stdin_input) && command.staged_lines ==> step.state is LineFiles
            && step.action is GetStagedFiles,
        (!command.staged || command.stdin_input) && !command.staged_lines && command.last_commit
            ==> step.state is CommitFiles && step.action is GetCommitFiles,
        (!command.staged || command.stdin_input) && !command.staged_lines && !command.last_commit
            ==> step.state is Loading && step.action == (AnalyzeAction::Load {
            sources: if command.path@.len() > 0 && !command.stdin_input {
                Sources::Given
            } else {
                Sources::Configured
            },
            stubs: !command.no_stubs,
        }),
{
}

/// All codes are listed, as JSON.
pub proof fn all_codes_are_listed(command: AnalyzeCommand, codes: Vec<String>, step: AnalyzeStep)
    requires
        crate::analyze::analyze_follows(
            command,
            AnalyzeState::Codes,
            AnalyzeEvent::Codes(codes),
            step,
        ),
    ensures
        step.state is Over,
        step.action matches AnalyzeAction::Show { text, status } && status == ExitStatus::Success
            && crate::json::is_json_list(Seq::new(codes@.len(), |i: int| codes@[i]@), text@),
{
    assert(crate::text::views(codes@) == Seq::new(codes@.len(), |i: int| codes@[i]@));
}

/// Each text in quotation marks on a line of its own, with a comma behind each but the last.
pub open spec fn quoted_list(list: Seq<Seq<char>>) -> Seq<char>
    decreases list.len(),
{
    if list.len() == 0 {
        seq![]
    } else if list.len() == 1 {
        "\n  \""@ + list[0] + "\""@
    } else {
        quoted_list(list.drop_last()) + ","@ + "\n  \""@ + list[list.len() - 1] + "\""@
    }
}

proof fn lemma_quoted_list(list: Seq<Seq<char>>)
    ensures
        crate::text::join(crate::json::quoted_lines(list), ","@) == quoted_list(list),
    decreases list.len(),
{
    let lines = crate::json::quoted_lines(list);
    if list.len() > 1 {
        let init = list.drop_last();
        lemma_quoted_list(init);
        let last = "\n  \""@ + list[list.len() - 1] + "\""@;
        assert(lines == crate::json::quoted_lines(init).push(last));
        crate::text::lemma_join_push(crate::json::quoted_lines(init), ","@, last);
        assert(crate::text::join(lines, ","@) == quoted_list(init) + ","@ + last);
        assert(quoted_list(init) + ","@ + last == quoted_list(list));
    }
}

/// Where nothing is to be escaped, a list in JSON has each text in quotation marks on a line
/// of its own, between brackets.
pub proof fn json_lists_have_each_text(list: Seq<Seq<char>>, text: Seq<char>)
    requires
        list.len() > 0,
        crate::json::is_json_list(list, text),
        forall|i: int, j: int|
            0 <= i < list.len() && 0 <= j < list[i].len() ==> #[trigger] list[i][j] != '"'
                && list[i][j] != '\\' && list[i][j] >= ' ',
    ensures
        text == "["@ + quoted_list(list) + "\n]"@,
{
    lemma_quoted_list(list);
    assert forall|i: int| 0 <= i < list.len() implies crate::json::is_plain(#[trigger] list[i]) by {
        assert forall|j: int| 0 <= j < list[i].len() implies (#[trigger] list[i][j]) != '"'
            && list[i][j] != '\\' && list[i][j] >= ' ' by {}
    }
}

/// An empty list in JSON is a pair of brackets.
pub proof fn empty_json_lists_are_brackets(list: Seq<Seq<char>>, text: Seq<char>)
    requires
        list.len() == 0,
        crate::json::is_json_list(list, text),
    ensures
        text == "[]"@,
{
}

/// Where files are staged they are loaded, but first, if they are to be fixed, it is made
/// sure that they are clean.
pub proof fn staged_files_are_loaded_to_analyze(command: AnalyzeCommand, n: usize, step: AnalyzeStep)
    ensures
        ({
            let load = AnalyzeAction::Load { sources: Sources::Staged, stubs: !command.no_stubs };
            &&& crate::analyze::analyze_follows(
                command,
                AnalyzeState::StagedFiles,
                AnalyzeEvent::StagedFiles(n),
                step,
            ) ==> {
                &&& n == 0 ==> is_over(
                    step,
                    ExitStatus::Success,
                    Some(Notice::NoStagedFilesToAnalyze),
                )
                &&& n > 0 && command.reporting.fix ==> step.state is CleanFiles && step.action
                    is EnsureClean
                &&& n > 0 && !command.reporting.fix ==> step.state is Loading && step.action == load
            }
            &&& crate::analyze::analyze_follows(
                command,
                AnalyzeState::CleanFiles,
                AnalyzeEvent::Clean,
                step,
            ) ==> step.state is Loading && step.action == load
        }),
{
}

/// Loaded files are analyzed if any of them is not only context.
pub proof fn loaded_files_are_analyzed(command: AnalyzeCommand, has_host: bool, step: AnalyzeStep)
    requires
        crate::analyze::analyze_follows(
            command,
            AnalyzeState::Loading,
            AnalyzeEvent::Loaded { has_host },
            step,
        ),
    ensures
        has_host ==> step.state is Analyzing && step.action is Analyze,
        !has_host ==> is_over(step, ExitStatus::Success, Some(Notice::NoFilesToAnalyze)),
{
}

/// The command ends with the status that reporting gave. Files that reporting changed are
/// staged before that, if staged files were analyzed.
pub proof fn reports_decide_the_status(
    command: AnalyzeCommand,
    status: ExitStatus,
    changed: usize,
    step: AnalyzeStep,
)
    ensures
        crate::analyze::analyze_follows(
            command,
            AnalyzeState::Analyzing,
            AnalyzeEvent::Reported { status, changed },
            step,
        ) ==> {
            &&& command.staged && changed > 0 ==> step.state == AnalyzeState::Staging(status)
                && step.action is StageChanged
            &&& !command.staged || changed == 0 ==> is_over(step, status, None)
        },
        crate::analyze::analyze_follows(
            command,
            AnalyzeState::Staging(status),
            AnalyzeEvent::Staged,
            step,
        ) ==> is_over(step, status, None),
        crate::analyze::analyze_follows(
            command,
            AnalyzeState::ReportingStaged,
            AnalyzeEvent::Reported { status, changed },
            step,
        ) ==> {
            &&& changed > 0 && !command.no_stage ==> step.state == AnalyzeState::Restaging(
                status,
                changed,
            ) && step.action is StageChanged
            &&& changed > 0 && command.no_stage ==> is_over(
                step,
                status,
                Some(Notice::FixedUnstaged(changed)),
            )
            &&& changed == 0 ==> is_over(step, status, Some(Notice::NoStagedLineFixes))
        },
        crate::analyze::analyze_follows(
            command,
            AnalyzeState::Restaging(status, changed),
            AnalyzeEvent::Staged,
            step,
        ) ==> is_over(step, status, Some(Notice::FixedAndRestaged(changed))),
        crate::analyze::analyze_follows(
            command,
            AnalyzeState::ReportingCommit,
            AnalyzeEvent::Reported { status, changed },
            step,
        ) ==> {
            &&& changed > 0 ==> is_over(step, status, Some(Notice::FixedFromCommit(changed)))
            &&& changed == 0 ==> is_over(step, status, Some(Notice::NoCommitLineFixes))
        },
{
}

/// Before staged lines are worked on it is made sure that the files are clean, and without
/// the flag to fix the command ends there.
pub proof fn staged_lines_are_to_be_fixed_by_analysis(
    command: AnalyzeCommand,
    n: usize,
    step: AnalyzeStep,
)
    ensures
        crate::analyze::analyze_follows(
            command,
            AnalyzeState::LineFiles,
            AnalyzeEvent::StagedFiles(n),
            step,
        ) ==> {
            &&& n == 0 ==> is_over(
                step,
                ExitStatus::Success,
                Some(Notice::NoStagedFilesToAnalyze),
            )
            &&& n > 0 ==> step.state is CleanLineFiles && step.action is EnsureClean
        },
        crate::analyze::analyze_follows(
            command,
            AnalyzeState::CleanLineFiles,
            AnalyzeEvent::Clean,
            step,
        ) ==> {
            &&& command.reporting.fix ==> step.state == AnalyzeState::LoadingLines(Changes::Staged)
                && step.action == (AnalyzeAction::Load {
                sources: Sources::Staged,
                stubs: !command.no_stubs,
            })
            &&& !command.reporting.fix ==> is_over(
                step,
                ExitStatus::Success,
                Some(Notice::FixRequired),
            )
        },
{
}

/// Of the last commit exactly the files with one of the extensions are loaded, if there are
/// any and they are to be fixed.
pub proof fn source_files_of_the_commit_are_analyzed(
    command: AnalyzeCommand,
    files: Vec<CommitFile>,
    extensions: Vec<String>,
    step: AnalyzeStep,
)
    requires
        files@.len() <= usize::MAX,
        crate::analyze::analyze_follows(
            command,
            AnalyzeState::CommitFiles,
            AnalyzeEvent::CommitFiles { files, extensions },
            step,
        ),
    ensures
        ({
            let none = forall|i: int|
                0 <= i < files@.len() ==> !crate::lint_step_laws::has_extension(
                    #[trigger] files@[i],
                    extensions@,
                );
            &&& files@.len() == 0 ==> is_over(
                step,
                ExitStatus::Success,
                Some(Notice::NoCommitFiles),
            )
            &&& files@.len() > 0 && none ==> is_over(
                step,
                ExitStatus::Success,
                Some(Notice::NoPhpCommitFiles),
            )
            &&& !none && !command.reporting.fix ==> is_over(
                step,
                ExitStatus::Success,
                Some(Notice::FixRequired),
            )
            &&& !none && command.reporting.fix ==> loads_sources(
                command,
                files,
                extensions@,
                step,
            )
        }),
{
    let chosen = |i: int| crate::commit::is_source(files@[i], extensions@);
    assert forall|i: int| 0 <= i < files@.len() implies crate::lint_step_laws::has_extension(
        #[trigger] files@[i],
        extensions@,
    ) == chosen(i) by {
        crate::sift_laws::sources_have_a_listed_extension(files@[i], extensions@);
    }
    let none = forall|i: int|
        0 <= i < files@.len() ==> !crate::lint_step_laws::has_extension(
            #[trigger] files@[i],
            extensions@,
        );
    if none {
        assert forall|i: int| 0 <= i < files@.len() implies !#[trigger] chosen(i) by {
            assert(!crate::lint_step_laws::has_extension(files@[i], extensions@));
        }
    } else {
        let i = choose|i: int|
            0 <= i < files@.len() && crate::lint_step_laws::has_extension(
                #[trigger] files@[i],
                extensions@,
            );
        assert(chosen(i));
    }
    if !none && command.reporting.fix {
        let kept = step.action->Load_sources->Commit_0@;
        crate::select_laws::lists_name_what_was_chosen(kept, files@.len(), chosen);
        assert forall|i: usize| #[trigger] kept.contains(i) <==> i < files@.len()
            && crate::lint_step_laws::has_extension(files@[i as int], extensions@) by {
            if i < files@.len() {
                assert(crate::lint_step_laws::has_extension(files@[i as int], extensions@)
                    == chosen(i as int));
            }
        }
    }
}

/// The files with one of the extensions are loaded, and their lines in the commit count.
pub open spec fn loads_sources(
    command: AnalyzeCommand,
    files: Vec<CommitFile>,
    extensions: Seq<String>,
    step: AnalyzeStep,
) -> bool {
    step.action matches AnalyzeAction::Load { sources: Sources::Commit(kept), stubs } && {
        &&& stubs == !command.no_stubs
        &&& forall|i: usize| #[trigger]
            kept@.contains(i) <==> i < files@.len() && crate::lint_step_laws::has_extension(
                files@[i as int],
                extensions,
            )
        &&& step.state matches AnalyzeState::LoadingLines(Changes::Commit(same, positions)) && same
            == files && positions@ == kept@
    }
}

/// The files loaded for their lines are analyzed if any of them is not only context, and
/// then each issue is asked about, beginning with the first; where there is none, none is
/// reported.
pub proof fn issues_in_lines_are_found_and_asked_about(
    command: AnalyzeCommand,
    changes: Changes,
    has_host: bool,
    total: usize,
    step: AnalyzeStep,
)
    ensures
        crate::analyze::analyze_follows(
            command,
            AnalyzeState::LoadingLines(changes),
            AnalyzeEvent::Loaded { has_host },
            step,
        ) ==> {
            &&& has_host ==> step.state == AnalyzeState::AnalyzingLines(changes) && step.action
                is FindIssues
            &&& !has_host ==> is_over(step, ExitStatus::Success, Some(Notice::NoFilesToAnalyze))
        },
        crate::analyze::analyze_follows(
            command,
            AnalyzeState::AnalyzingLines(changes),
            AnalyzeEvent::Issues(total),
            step,
        ) ==> {
            &&& total > 0 ==> step.action == AnalyzeAction::Issue(IssueAction::Locate(0)) && (
            step.state matches AnalyzeState::Sifting(run) && run.total == total && run.changes
                == changes && run.kept@.len() == 0 && run.stage is Place)
            &&& total == 0 ==> (step.action matches AnalyzeAction::Report(issues) && issues@.len()
                == 0) && (changes is Staged ==> step.state is ReportingStaged) && (
            changes is Commit ==> step.state is ReportingCommit)
        },
{
    if crate::analyze::analyze_follows(
        command,
        AnalyzeState::AnalyzingLines(changes),
        AnalyzeEvent::Issues(total),
        step,
    ) {
        let first = choose|first: IssueStep|
            {
                &&& first.run.wf()
                &&& first.run.total == total
                &&& first.run.changes == changes
                &&& first.run.kept@.len() == 0
                &&& crate::issue_run::begins_issue(first.run, first.action)
                &&& #[trigger] crate::analyze::sifts(first, step)
            };
        if total == 0 {
            let issues = step.action->Report_0@;
            if issues.len() > 0 {
                assert(issues[0] < first.run.kept@.len());
            }
        }
    }
}

/// After an event about an issue the command goes on with the run, or, with the last issue
/// done, reports exactly the issues that were kept.
pub proof fn kept_issues_are_reported(
    command: AnalyzeCommand,
    run: IssueRun,
    event: IssueEvent,
    step: AnalyzeStep,
) -> (next: IssueStep)
    requires
        run.total <= usize::MAX,
        crate::analyze::analyze_follows(
            command,
            AnalyzeState::Sifting(run),
            AnalyzeEvent::Issue(event),
            step,
        ),
    ensures
        crate::issue_run::issue_follows(run, event, next),
        !(next.run.stage is Over) ==> step.state == AnalyzeState::Sifting(next.run) && step.action
            == AnalyzeAction::Issue(next.action),
        next.run.stage is Over ==> (step.action matches AnalyzeAction::Report(issues)
            && forall|i: usize| #[trigger]
            issues@.contains(i) <==> i < next.run.kept@.len() && next.run.kept@[i as int]),
        next.run.stage is Over && next.run.changes is Staged ==> step.state is ReportingStaged,
        next.run.stage is Over && next.run.changes is Commit ==> step.state is ReportingCommit,
{
    let next = choose|next: IssueStep|
        {
            &&& next.run.wf()
            &&& crate::issue_run::issue_follows(run, event, next)
            &&& #[trigger] crate::analyze::sifts(next, step)
        };
    if next.run.stage is Over {
        let kept = next.run.kept@;
        let chosen = |i: int| kept[i];
        let issues = step.action->Report_0@;
        assert(kept.len() == next.run.kept.len());
        crate::select_laws::lists_name_what_was_chosen(issues, kept.len(), chosen);
        assert forall|i: usize| #[trigger] issues.contains(i) <==> i < kept.len()
            && kept[i as int] by {
            assert(chosen(i as int) == kept[i as int]);
        }
    }
    next
}

/// At each state the command waits for one kind of event, and for no other; of a run, for
/// what the run waits for. When it is over it waits for nothing.
pub proof fn analyze_waits_for_what_it_asked(state: AnalyzeState, event: AnalyzeEvent)
    ensures
        ({
            let answers = crate::analyze::analyze_answers(state, event);
            &&& state is Codes ==> (answers <==> event is Codes)
            &&& state is StagedFiles || state is LineFiles ==> (answers <==> event is StagedFiles)
            &&& state is CleanFiles || state is CleanLineFiles ==> (answers <==> event is Clean)
            &&& state is Loading || state is LoadingLines ==> (answers <==> event is Loaded)
            &&& state is Analyzing || state is ReportingStaged || state is ReportingCommit ==> (
            answers <==> event is Reported)
            &&& state is AnalyzingLines ==> (answers <==> event is Issues)
            &&& state is Staging || state is Restaging ==> (answers <==> event is Staged)
            &&& state is CommitFiles ==> (answers <==> event is CommitFiles)
            &&& state is Over ==> !answers
            &&& state matches AnalyzeState::Sifting(run) ==> (answers <==> event is Issue
                && crate::issue_run::issue_answers(run, event->Issue_0))
        }),
{
}

/// A run over issues waits for what it asked: the place of an issue, or its changed lines.
pub proof fn issue_runs_wait_for_what_they_asked(run: IssueRun, event: IssueEvent)
    ensures
        run.stage is Place ==> (crate::issue_run::issue_answers(run, event) <==> event is Nowhere
            || event is Located),
        run.stage is Ranges ==> (crate::issue_run::issue_answers(run, event) <==> event is Ranges
            || event is NoRanges),
        run.stage is Over ==> !crate::issue_run::issue_answers(run, event),
{
}

/// A run over issues has at most as many of them done as there are, and is over exactly if
/// all are. The positions of the files of a commit name files.
pub proof fn issue_runs_are_over_with_their_last_issue(run: IssueRun)
    ensures
        run.wf() <==> run.kept@.len() <= run.total && (run.stage is Over <==> run.kept@.len()
            == run.total) && (run.changes matches Changes::Commit(files, kept) ==> forall|k: int|
            0 <= k < kept@.len() ==> (#[trigger] kept@[k]) < files@.len()),
{
}

} // verus!
