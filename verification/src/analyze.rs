//! The analyze command: which steps it takes, in which order, and how it ends.
//!
//! The command says what is to be done next, and goes on when it is told how that went.
//! Where something cannot be done, the command ends there with the error.
use crate::commit::{source_files, CommitFile};
use crate::fix::FixFlags;
use crate::issue_run::{
    kept_issues, Changes, IssueAction, IssueEvent, IssueRun, IssueStage, IssueStep,
};
use crate::json::json_list;
use crate::lint::Sources;
use crate::notice::Notice;
use crate::status::ExitStatus;
use crate::text::join_strings;
use vstd::prelude::*;

verus! {

/// What the analyze command was asked to do.
#[derive(Debug)]
pub struct AnalyzeCommand {
    /// Files and directories to analyze in place of the configured ones.
    pub path: Vec<std::path::PathBuf>,
    /// Do not use the built-in stubs.
    pub no_stubs: bool,
    /// Go on analyzing when files change.
    pub watch: bool,
    /// List all issue codes as JSON.
    pub list_codes: bool,
    /// Analyze only the files that are staged in git.
    pub staged: bool,
    /// Fix only issues in the staged lines of staged files.
    pub staged_lines: bool,
    /// Do not stage fixed files again.
    pub no_stage: bool,
    /// Fix only issues in the lines that the last commit changed.
    pub last_commit: bool,
    /// Analyze what is read from the standard input.
    pub stdin_input: bool,
    /// Codes given to a flag that only the linter has.
    pub only: Vec<String>,
    /// What to fix.
    pub reporting: FixFlags,
}

/// What the analyze command waits for.
#[derive(Debug)]
pub enum AnalyzeState {
    /// All issue codes.
    Codes,
    /// The number of staged files.
    StagedFiles,
    /// That no staged file has unstaged changes.
    CleanFiles,
    /// That the files are loaded.
    Loading,
    /// That the files are analyzed and the issues reported.
    Analyzing,
    /// That the files that reporting changed are staged.
    Staging(ExitStatus),
    /// The number of staged files, of which only the staged lines count.
    LineFiles,
    /// That none of these staged files has unstaged changes.
    CleanLineFiles,
    /// The files of the last commit.
    CommitFiles,
    /// That the files are loaded of which only these lines count.
    LoadingLines(Changes),
    /// The number of issues, of which only those in these lines count.
    AnalyzingLines(Changes),
    /// The next step of a run over the issues.
    Sifting(IssueRun),
    /// That the issues in staged lines are reported.
    ReportingStaged,
    /// That the issues in lines of the last commit are reported.
    ReportingCommit,
    /// That so many files that reporting changed are staged again.
    Restaging(ExitStatus, usize),
    /// Nothing: the command is over.
    Over,
}

/// What the analyze command wants to be done.
#[derive(Debug)]
pub enum AnalyzeAction {
    /// Complain with this text, and end.
    Reject { text: String, status: ExitStatus },
    /// Collect all issue codes.
    GetCodes,
    /// Show this text, and end.
    Show { text: String, status: ExitStatus },
    /// Start watching.
    Watch,
    /// Find the staged files.
    GetStagedFiles,
    /// Find the files of the last commit.
    GetCommitFiles,
    /// Make sure that no staged file has unstaged changes.
    EnsureClean,
    /// Load the files, and the built-in stubs if `stubs`.
    Load { sources: Sources, stubs: bool },
    /// Analyze the files and report the issues that are not to be ignored.
    Analyze,
    /// Analyze the files and find the issues that are not to be ignored.
    FindIssues,
    /// Do this with an issue of the run.
    Issue(IssueAction),
    /// Report the issues at these positions.
    Report(Vec<usize>),
    /// Stage the files that reporting changed.
    StageChanged,
    /// End, and tell the user something.
    Finish(ExitStatus, Option<Notice>),
}

/// How an action went.
#[derive(Debug)]
pub enum AnalyzeEvent {
    /// All issue codes.
    Codes(Vec<String>),
    /// So many files are staged.
    StagedFiles(usize),
    /// The last commit has these files, and source files have these extensions.
    CommitFiles { files: Vec<CommitFile>, extensions: Vec<String> },
    /// No staged file has unstaged changes.
    Clean,
    /// The files are loaded, and some are to be analyzed or only context.
    Loaded { has_host: bool },
    /// So many issues were found.
    Issues(usize),
    /// How an action on an issue of the run went.
    Issue(IssueEvent),
    /// The issues, if there are any, are reported, with this status, and so many files were
    /// changed by it.
    Reported { status: ExitStatus, changed: usize },
    /// The files are staged.
    Staged,
}

/// What follows an event.
#[derive(Debug)]
pub struct AnalyzeStep {
    /// What the command now waits for.
    pub state: AnalyzeState,
    /// What it wants to be done.
    pub action: AnalyzeAction,
}

/// The complaint about a flag that only the linter has.
pub open spec fn only_complaint(codes: Seq<Seq<char>>) -> Seq<char> {
    "error: the `--only` flag is not available for the analyzer.\n\n"@
        + "  Unlike the linter, the analyzer is not rule-based and does not support\n"@
        + "  selectively enabling individual checks.\n\n"@
        + "  To filter the output to specific issue codes, use `--retain-code`:\n\n"@
        + "    mago analyze --retain-code "@ + crate::text::join(codes, " --retain-code "@)
        + "\n\n"@
        + "  This runs the full analysis but only reports issues matching the given codes.\n"@
        + "  Use `mago analyze --list-codes` to see all available codes.\n"@
}

/// The complaint about a flag that only the linter has.
fn complain(codes: &Vec<String>) -> (r: String)
    ensures
        r@ == only_complaint(crate::text::views(codes@)),
{
    let mut r = "error: the `--only` flag is not available for the analyzer.\n\n".to_owned();
    r.append("  Unlike the linter, the analyzer is not rule-based and does not support\n");
    r.append("  selectively enabling individual checks.\n\n");
    r.append("  To filter the output to specific issue codes, use `--retain-code`:\n\n");
    r.append("    mago analyze --retain-code ");
    r.append(join_strings(codes, " --retain-code ").as_str());
    r.append("\n\n");
    r.append("  This runs the full analysis but only reports issues matching the given codes.\n");
    r.append("  Use `mago analyze --list-codes` to see all available codes.\n");
    r
}

/// The command ends.
pub open spec fn analyze_ends(
    step: AnalyzeStep,
    status: ExitStatus,
    notice: Option<Notice>,
) -> bool {
    step.state is Over && step.action == AnalyzeAction::Finish(status, notice)
}

/// The command loads files, and with them the stubs unless it was asked not to.
pub open spec fn analyze_loads(
    command: AnalyzeCommand,
    state: AnalyzeState,
    sources: Sources,
    step: AnalyzeStep,
) -> bool {
    &&& step.state == state
    &&& step.action == (AnalyzeAction::Load { sources, stubs: !command.no_stubs })
}

/// The first step of the command.
pub open spec fn analyze_begins(command: AnalyzeCommand, step: AnalyzeStep) -> bool {
    if command.only@.len() > 0 {
        &&& step.state is Over
        &&& step.action matches AnalyzeAction::Reject { text, status }
        &&& status == ExitStatus::Failure
        &&& text@ == only_complaint(crate::text::views(command.only@))
    } else if command.list_codes {
        step.state is Codes && step.action is GetCodes
    } else if command.watch {
        step.state is Over && step.action is Watch
    } else if command.staged && !command.stdin_input {
        step.state is StagedFiles && step.action is GetStagedFiles
    } else if command.staged_lines {
        step.state is LineFiles && step.action is GetStagedFiles
    } else if command.last_commit {
        step.state is CommitFiles && step.action is GetCommitFiles
    } else if command.path@.len() > 0 && !command.stdin_input {
        analyze_loads(command, AnalyzeState::Loading, Sources::Given, step)
    } else {
        analyze_loads(command, AnalyzeState::Loading, Sources::Configured, step)
    }
}

/// What follows once the files of the last commit are known: only those count that have one
/// of the extensions, and the flag to fix is needed.
pub open spec fn analyze_commit_known(
    command: AnalyzeCommand,
    files: Vec<CommitFile>,
    extensions: Seq<String>,
    step: AnalyzeStep,
) -> bool {
    let chosen = |i: int| crate::commit::is_source(files@[i], extensions);
    if files@.len() == 0 {
        analyze_ends(step, ExitStatus::Success, Some(Notice::NoCommitFiles))
    } else if forall|i: int| 0 <= i < files@.len() ==> !#[trigger] chosen(i) {
        analyze_ends(step, ExitStatus::Success, Some(Notice::NoPhpCommitFiles))
    } else if !command.reporting.fix {
        analyze_ends(step, ExitStatus::Success, Some(Notice::FixRequired))
    } else {
        &&& step.action matches AnalyzeAction::Load { sources: Sources::Commit(kept), stubs }
        &&& stubs == !command.no_stubs
        &&& crate::fix::lists_positions(kept@, files@.len(), chosen)
        &&& step.state matches AnalyzeState::LoadingLines(Changes::Commit(same, positions))
        &&& same == files
        &&& positions@ == kept@
    }
}

/// The command takes over a step of its run.
pub open spec fn sifts(run_step: IssueStep, step: AnalyzeStep) -> bool {
    if !(run_step.run.stage is Over) {
        &&& step.state == AnalyzeState::Sifting(run_step.run)
        &&& step.action == AnalyzeAction::Issue(run_step.action)
    } else {
        &&& match run_step.run.changes {
            Changes::Staged => step.state is ReportingStaged,
            Changes::Commit(_, _) => step.state is ReportingCommit,
        }
        &&& step.action matches AnalyzeAction::Report(issues)
        &&& crate::fix::lists_positions(
            issues@,
            run_step.run.kept@.len(),
            |i: int| run_step.run.kept@[i],
        )
    }
}

/// The command starts a run over so many issues.
pub open spec fn starts_sifting(total: usize, changes: Changes, step: AnalyzeStep) -> bool {
    exists|first: IssueStep|
        {
            &&& first.run.wf()
            &&& first.run.total == total
            &&& first.run.changes == changes
            &&& first.run.kept@.len() == 0
            &&& crate::issue_run::begins_issue(first.run, first.action)
            &&& #[trigger] sifts(first, step)
        }
}

/// The command goes on with its run.
pub open spec fn goes_on_sifting(run: IssueRun, event: IssueEvent, step: AnalyzeStep) -> bool {
    exists|next: IssueStep|
        {
            &&& next.run.wf()
            &&& crate::issue_run::issue_follows(run, event, next)
            &&& #[trigger] sifts(next, step)
        }
}

/// What follows once the issues in staged lines are reported.
pub open spec fn staged_lines_reported(
    command: AnalyzeCommand,
    status: ExitStatus,
    changed: usize,
    step: AnalyzeStep,
) -> bool {
    if changed > 0 && !command.no_stage {
        step.state == AnalyzeState::Restaging(status, changed) && step.action is StageChanged
    } else if changed > 0 {
        analyze_ends(step, status, Some(Notice::FixedUnstaged(changed)))
    } else {
        analyze_ends(step, status, Some(Notice::NoStagedLineFixes))
    }
}

/// The event is what the command waits for.
pub open spec fn analyze_answers(state: AnalyzeState, event: AnalyzeEvent) -> bool {
    match state {
        AnalyzeState::Codes => event is Codes,
        AnalyzeState::StagedFiles | AnalyzeState::LineFiles => event is StagedFiles,
        AnalyzeState::CleanFiles | AnalyzeState::CleanLineFiles => event is Clean,
        AnalyzeState::Loading | AnalyzeState::LoadingLines(_) => event is Loaded,
        AnalyzeState::Analyzing | AnalyzeState::ReportingStaged
        | AnalyzeState::ReportingCommit => event is Reported,
        AnalyzeState::AnalyzingLines(_) => event is Issues,
        AnalyzeState::Staging(_) | AnalyzeState::Restaging(_, _) => event is Staged,
        AnalyzeState::CommitFiles => event is CommitFiles,
        AnalyzeState::Sifting(run) => match event {
            AnalyzeEvent::Issue(e) => crate::issue_run::issue_answers(run, e),
            _ => false,
        },
        AnalyzeState::Over => false,
    }
}

/// What follows an event that the command waits for.
pub open spec fn analyze_follows(
    command: AnalyzeCommand,
    state: AnalyzeState,
    event: AnalyzeEvent,
    step: AnalyzeStep,
) -> bool {
    match (state, event) {
        (AnalyzeState::Codes, AnalyzeEvent::Codes(codes)) => {
            &&& step.state is Over
            &&& step.action matches AnalyzeAction::Show { text, status }
            &&& status == ExitStatus::Success
            &&& crate::json::is_json_list(crate::text::views(codes@), text@)
        },
        (AnalyzeState::StagedFiles, AnalyzeEvent::StagedFiles(n)) => if n == 0 {
            analyze_ends(step, ExitStatus::Success, Some(Notice::NoStagedFilesToAnalyze))
        } else if command.reporting.fix {
            step.state is CleanFiles && step.action is EnsureClean
        } else {
            analyze_loads(command, AnalyzeState::Loading, Sources::Staged, step)
        },
        (AnalyzeState::CleanFiles, AnalyzeEvent::Clean) => analyze_loads(
            command,
            AnalyzeState::Loading,
            Sources::Staged,
            step,
        ),
        (AnalyzeState::Loading, AnalyzeEvent::Loaded { has_host }) => if has_host {
            step.state is Analyzing && step.action is Analyze
        } else {
            analyze_ends(step, ExitStatus::Success, Some(Notice::NoFilesToAnalyze))
        },
        (AnalyzeState::Analyzing, AnalyzeEvent::Reported { status, changed }) => {
            if command.staged && changed > 0 {
                step.state == AnalyzeState::Staging(status) && step.action is StageChanged
            } else {
                analyze_ends(step, status, None)
            }
        },
        (AnalyzeState::Staging(status), AnalyzeEvent::Staged) => analyze_ends(step, status, None),
        (AnalyzeState::LineFiles, AnalyzeEvent::StagedFiles(n)) => if n == 0 {
            analyze_ends(step, ExitStatus::Success, Some(Notice::NoStagedFilesToAnalyze))
        } else {
            step.state is CleanLineFiles && step.action is EnsureClean
        },
        (AnalyzeState::CleanLineFiles, AnalyzeEvent::Clean) => if command.reporting.fix {
            analyze_loads(
                command,
                AnalyzeState::LoadingLines(Changes::Staged),
                Sources::Staged,
                step,
            )
        } else {
            analyze_ends(step, ExitStatus::Success, Some(Notice::FixRequired))
        },
        (AnalyzeState::CommitFiles, AnalyzeEvent::CommitFiles { files, extensions }) => {
            analyze_commit_known(command, files, extensions@, step)
        },
        (AnalyzeState::LoadingLines(changes), AnalyzeEvent::Loaded { has_host }) => {
            if has_host {
                step.state == AnalyzeState::AnalyzingLines(changes) && step.action is FindIssues
            } else {
                analyze_ends(step, ExitStatus::Success, Some(Notice::NoFilesToAnalyze))
            }
        },
        (AnalyzeState::AnalyzingLines(changes), AnalyzeEvent::Issues(n)) => starts_sifting(
            n,
            changes,
            step,
        ),
        (AnalyzeState::Sifting(run), AnalyzeEvent::Issue(e)) => goes_on_sifting(run, e, step),
        (AnalyzeState::ReportingStaged, AnalyzeEvent::Reported { status, changed }) => {
            staged_lines_reported(command, status, changed, step)
        },
        (AnalyzeState::ReportingCommit, AnalyzeEvent::Reported { status, changed }) => {
            analyze_ends(
                step,
                status,
                if changed > 0 {
                    Some(Notice::FixedFromCommit(changed))
                } else {
                    Some(Notice::NoCommitLineFixes)
                },
            )
        },
        (AnalyzeState::Restaging(status, n), AnalyzeEvent::Staged) => analyze_ends(
            step,
            status,
            Some(Notice::FixedAndRestaged(n)),
        ),
        _ => false,
    }
}

/// The positions that the state holds name files, and a run is at one of its issues.
pub open spec fn analyze_wf(state: AnalyzeState) -> bool {
    match state {
        AnalyzeState::LoadingLines(changes) => crate::issue_run::changes_wf(changes),
        AnalyzeState::AnalyzingLines(changes) => crate::issue_run::changes_wf(changes),
        AnalyzeState::Sifting(run) => run.wf(),
        _ => true,
    }
}

/// The last step.
fn end(status: ExitStatus, notice: Option<Notice>) -> (r: AnalyzeStep)
    ensures
        analyze_ends(r, status, notice),
{
    AnalyzeStep { state: AnalyzeState::Over, action: AnalyzeAction::Finish(status, notice) }
}

/// A copy of a list of positions.
fn copy_positions(list: &Vec<usize>) -> (r: Vec<usize>)
    ensures
        r@ == list@,
{
    let mut r: Vec<usize> = Vec::new();
    let mut i: usize = 0;
    while i < list.len()
        invariant
            i <= list@.len(),
            r@ == list@.take(i as int),
        decreases list@.len() - i,
    {
        r.push(list[i]);
        i += 1;
    }
    r
}

impl AnalyzeCommand {
    /// Begins the command.
    pub fn execute(&self) -> (r: AnalyzeStep)
        ensures
            analyze_begins(*self, r),
            analyze_wf(r.state),
    {
        if self.only.len() > 0 {
            let text = complain(&self.only);
            let action = AnalyzeAction::Reject { text, status: ExitStatus::Failure };
            AnalyzeStep { state: AnalyzeState::Over, action }
        } else if self.list_codes {
            AnalyzeStep { state: AnalyzeState::Codes, action: AnalyzeAction::GetCodes }
        } else if self.watch {
            AnalyzeStep { state: AnalyzeState::Over, action: AnalyzeAction::Watch }
        } else if !self.stdin_input && self.staged {
            AnalyzeStep { state: AnalyzeState::StagedFiles, action: AnalyzeAction::GetStagedFiles }
        } else if self.staged_lines {
            AnalyzeStep { state: AnalyzeState::LineFiles, action: AnalyzeAction::GetStagedFiles }
        } else if self.last_commit {
            AnalyzeStep { state: AnalyzeState::CommitFiles, action: AnalyzeAction::GetCommitFiles }
        } else if !self.stdin_input && self.path.len() > 0 {
            self.load(AnalyzeState::Loading, Sources::Given)
        } else {
            self.load(AnalyzeState::Loading, Sources::Configured)
        }
    }

    /// Loads files.
    fn load(&self, state: AnalyzeState, sources: Sources) -> (r: AnalyzeStep)
        ensures
            analyze_loads(*self, state, sources, r),
    {
        AnalyzeStep { state, action: AnalyzeAction::Load { sources, stubs: !self.no_stubs } }
    }

    /// Goes on after an event. Nothing follows an event that the command does not wait for.
    pub fn resume(&self, state: AnalyzeState, event: AnalyzeEvent) -> (r: Option<AnalyzeStep>)
        requires
            analyze_wf(state),
        ensures
            r is Some <==> analyze_answers(state, event),
            r matches Some(step) ==> analyze_wf(step.state) && analyze_follows(
                *self,
                state,
                event,
                step,
            ),
    {
        match (state, event) {
            (AnalyzeState::Codes, AnalyzeEvent::Codes(codes)) => {
                let text = json_list(&codes);
                let action = AnalyzeAction::Show { text, status: ExitStatus::Success };
                Some(AnalyzeStep { state: AnalyzeState::Over, action })
            },
            (AnalyzeState::StagedFiles, AnalyzeEvent::StagedFiles(n)) => {
                if n == 0 {
                    Some(end(ExitStatus::Success, Some(Notice::NoStagedFilesToAnalyze)))
                } else if self.reporting.fix {
                    let action = AnalyzeAction::EnsureClean;
                    Some(AnalyzeStep { state: AnalyzeState::CleanFiles, action })
                } else {
                    Some(self.load(AnalyzeState::Loading, Sources::Staged))
                }
            },
            (AnalyzeState::CleanFiles, AnalyzeEvent::Clean) => {
                Some(self.load(AnalyzeState::Loading, Sources::Staged))
            },
            (AnalyzeState::Loading, AnalyzeEvent::Loaded { has_host }) => {
                if has_host {
                    let action = AnalyzeAction::Analyze;
                    Some(AnalyzeStep { state: AnalyzeState::Analyzing, action })
                } else {
                    Some(end(ExitStatus::Success, Some(Notice::NoFilesToAnalyze)))
                }
            },
            (AnalyzeState::Analyzing, AnalyzeEvent::Reported { status, changed }) => {
                if self.staged && changed > 0 {
                    let action = AnalyzeAction::StageChanged;
                    Some(AnalyzeStep { state: AnalyzeState::Staging(status), action })
                } else {
                    Some(end(status, None))
                }
            },
            (AnalyzeState::Staging(status), AnalyzeEvent::Staged) => Some(end(status, None)),
            (AnalyzeState::LineFiles, AnalyzeEvent::StagedFiles(n)) => {
                if n == 0 {
                    Some(end(ExitStatus::Success, Some(Notice::NoStagedFilesToAnalyze)))
                } else {
                    let action = AnalyzeAction::EnsureClean;
                    Some(AnalyzeStep { state: AnalyzeState::CleanLineFiles, action })
                }
            },
            (AnalyzeState::CleanLineFiles, AnalyzeEvent::Clean) => {
                if self.reporting.fix {
                    Some(self.load(AnalyzeState::LoadingLines(Changes::Staged), Sources::Staged))
                } else {
                    Some(end(ExitStatus::Success, Some(Notice::FixRequired)))
                }
            },
            (AnalyzeState::CommitFiles, AnalyzeEvent::CommitFiles { files, extensions }) => {
                Some(self.commit_files(files, &extensions))
            },
            (AnalyzeState::LoadingLines(changes), AnalyzeEvent::Loaded { has_host }) => {
                if has_host {
                    let action = AnalyzeAction::FindIssues;
                    Some(AnalyzeStep { state: AnalyzeState::AnalyzingLines(changes), action })
                } else {
                    Some(end(ExitStatus::Success, Some(Notice::NoFilesToAnalyze)))
                }
            },
            (AnalyzeState::AnalyzingLines(changes), AnalyzeEvent::Issues(n)) => {
                Some(sift(IssueRun::start(n, changes)))
            },
            (AnalyzeState::Sifting(run), AnalyzeEvent::Issue(e)) => {
                match run.step(e) {
                    Some(next) => Some(sift(next)),
                    None => None,
                }
            },
            (AnalyzeState::ReportingStaged, AnalyzeEvent::Reported { status, changed }) => {
                if changed > 0 && !self.no_stage {
                    let action = AnalyzeAction::StageChanged;
                    Some(AnalyzeStep { state: AnalyzeState::Restaging(status, changed), action })
                } else if changed > 0 {
                    Some(end(status, Some(Notice::FixedUnstaged(changed))))
                } else {
                    Some(end(status, Some(Notice::NoStagedLineFixes)))
                }
            },
            (AnalyzeState::ReportingCommit, AnalyzeEvent::Reported { status, changed }) => {
                if changed > 0 {
                    Some(end(status, Some(Notice::FixedFromCommit(changed))))
                } else {
                    Some(end(status, Some(Notice::NoCommitLineFixes)))
                }
            },
            (AnalyzeState::Restaging(status, n), AnalyzeEvent::Staged) => {
                Some(end(status, Some(Notice::FixedAndRestaged(n))))
            },
            _ => None,
        }
    }

    /// Goes on once the files of the last commit are known.
    fn commit_files(&self, files: Vec<CommitFile>, extensions: &Vec<String>) -> (r: AnalyzeStep)
        ensures
            analyze_commit_known(*self, files, extensions@, r),
            analyze_wf(r.state),
    {
        if files.len() == 0 {
            return end(ExitStatus::Success, Some(Notice::NoCommitFiles));
        }
        let kept = source_files(&files, extensions);
        let ghost chosen = |i: int| crate::commit::is_source(files@[i], extensions@);
        if kept.len() == 0 {
            assert forall|i: int| 0 <= i < files@.len() implies !#[trigger] chosen(i) by {
                if chosen(i) {
                    assert(kept@.contains(i as usize));
                }
            }
            return end(ExitStatus::Success, Some(Notice::NoPhpCommitFiles));
        }
        assert(chosen(kept@[0] as int));
        if !self.reporting.fix {
            return end(ExitStatus::Success, Some(Notice::FixRequired));
        }
        let positions = copy_positions(&kept);
        self.load(
            AnalyzeState::LoadingLines(Changes::Commit(files, positions)),
            Sources::Commit(kept),
        )
    }
}

/// Takes over a step of a run.
fn sift(run_step: IssueStep) -> (r: AnalyzeStep)
    requires
        run_step.run.wf(),
    ensures
        sifts(run_step, r),
        analyze_wf(r.state),
{
    let IssueStep { run, action } = run_step;
    let over = match run.stage {
        IssueStage::Over => true,
        _ => false,
    };
    if !over {
        return AnalyzeStep {
            state: AnalyzeState::Sifting(run),
            action: AnalyzeAction::Issue(action),
        };
    }
    let issues = kept_issues(&run.kept);
    let state = match run.changes {
        Changes::Staged => AnalyzeState::ReportingStaged,
        Changes::Commit(_, _) => AnalyzeState::ReportingCommit,
    };
    AnalyzeStep { state, action: AnalyzeAction::Report(issues) }
}

} // verus!
