//! The lint command: which steps it takes, in which order, and how it ends.
//!
//! The command says what is to be done next, and goes on when it is told how that went.
//! Where something cannot be done, the command ends there with the error.
use crate::commit::{changes_of, source_files, CommitFile};
use crate::fix::{ChangeType, FixFlags};
use crate::line_run::{FileAction, FileEvent, FileStage, FileStep, FixPlan, LineRun};
use crate::merge::MergeError;
use crate::notice::Notice;
use crate::rules::{explain_rule, list_rules, RuleEntry, RuleListing, RuleMeta};
use crate::status::ExitStatus;
use crate::verdict::{changed_files, skipped_files, FileVerdict};
use vstd::prelude::*;

verus! {

/// A path of the file system, which the commands only hand on.
#[verifier::external_type_specification]
#[verifier::external_body]
pub struct ExPathBuf(std::path::PathBuf);

/// Which checks the linter runs.
#[derive(Clone, Copy, Debug, PartialEq, Eq, Structural)]
pub enum LintMode {
    /// Only parsing and semantic checks. This is the fastest mode.
    SemanticsOnly,
    /// All checks: parsing, semantics and the rules.
    Full,
}

/// What the lint command was asked to do.
#[derive(Debug)]
pub struct LintCommand {
    /// Files and directories to lint in place of the configured ones.
    pub path: Vec<std::path::PathBuf>,
    /// Check only syntax and semantics, and run no rules.
    pub semantics: bool,
    /// Enable every rule there is.
    pub pedantic: bool,
    /// The code of a rule to explain.
    pub explain: Option<String>,
    /// List the enabled rules.
    pub list_rules: bool,
    /// List them as JSON.
    pub json: bool,
    /// Run only the rules with these codes.
    pub only: Vec<String>,
    /// Lint only the files that are staged in git.
    pub staged: bool,
    /// Fix only the staged lines of staged files.
    pub staged_lines: bool,
    /// Do not stage fixed files again.
    pub no_stage: bool,
    /// Fix only the lines that the last commit changed.
    pub last_commit: bool,
    /// Lint what is read from the standard input.
    pub stdin_input: bool,
    /// What to fix.
    pub reporting: FixFlags,
}

/// Where the files of a command come from.
#[derive(Debug)]
pub enum Sources {
    /// The configuration.
    Configured,
    /// The paths given to the command.
    Given,
    /// The staging area of git.
    Staged,
    /// The last commit: its files at these positions.
    Commit(Vec<usize>),
}

/// What the lint command waits for.
#[derive(Debug)]
pub enum LintState {
    /// The number of staged files.
    StagedFiles,
    /// That no staged file has unstaged changes.
    CleanFiles,
    /// That the files are loaded.
    Loading,
    /// All rules, one of which is to be explained.
    Explaining,
    /// The enabled rules, which are to be listed.
    Listing,
    /// That the files are linted and the issues reported.
    Linting,
    /// That the files that reporting changed are staged.
    Staging,
    /// The number of staged files, whose staged lines are to be fixed.
    LineFiles,
    /// That none of so many staged files has unstaged changes.
    CleanLineFiles(usize),
    /// That the files are loaded whose staged lines are to be fixed.
    LoadingLines(usize),
    /// The files of the last commit.
    CommitFiles,
    /// That the files of the last commit, which changed like this, are loaded.
    LoadingCommit(Vec<ChangeType>),
    /// The next step of a run over the staged lines.
    StagedRun(LineRun),
    /// The next step of a run over the lines of the last commit.
    CommitRun(LineRun),
    /// That so many fixed files are staged again.
    Restaging(usize),
    /// Nothing: the command is over.
    Over,
}

/// What the lint command wants to be done.
#[derive(Debug)]
pub enum LintAction {
    /// Find the staged files.
    GetStagedFiles,
    /// Find the files of the last commit.
    GetCommitFiles,
    /// Make sure that no staged file has unstaged changes.
    EnsureClean,
    /// Load the files.
    Load(Sources),
    /// Collect the rules, only those asked for if `filtered`, and those that are disabled
    /// too if `include_disabled`.
    GetRules { filtered: bool, include_disabled: bool },
    /// Show this and end.
    Show { listing: RuleListing, status: ExitStatus },
    /// Lint the files, with only the rules asked for if `filtered`, and report the issues.
    Lint { mode: LintMode, filtered: bool },
    /// Stage the files that reporting changed.
    StageChanged,
    /// Do this with a file of the run.
    File(FileAction),
    /// Stage the files of the run at these positions.
    StageFiles(Vec<usize>),
    /// End, and tell the user something.
    Finish(ExitStatus, Option<Notice>),
}

/// How an action went.
#[derive(Debug)]
pub enum LintEvent {
    /// So many files are staged.
    StagedFiles(usize),
    /// The last commit has these files, and source files have these extensions.
    CommitFiles { files: Vec<CommitFile>, extensions: Vec<String> },
    /// No staged file has unstaged changes.
    Clean,
    /// The files are loaded.
    Loaded { empty: bool },
    /// The rules for an explanation.
    Rules(Vec<RuleMeta>),
    /// The rules for a list.
    RuleEntries(Vec<RuleEntry>),
    /// The issues, if there are any, are reported, and so many files were changed by it.
    Reported { changed: usize },
    /// The files are staged.
    Staged,
    /// How an action on a file of the run went.
    File(FileEvent),
}

/// What follows an event.
#[derive(Debug)]
pub struct LintStep {
    /// What the command now waits for.
    pub state: LintState,
    /// What it wants to be done.
    pub action: LintAction,
    /// Why fixed lines could not be merged, if they could not.
    pub refused: Option<MergeError>,
}

/// The command ends.
pub open spec fn ends(step: LintStep, status: ExitStatus, notice: Option<Notice>) -> bool {
    step.state is Over && step.action == LintAction::Finish(status, notice)
}

/// The first step of the command.
pub open spec fn lint_begins(command: LintCommand, step: LintStep) -> bool {
    &&& step.refused is None
    &&& if command.staged && !command.stdin_input {
        step.state is StagedFiles && step.action is GetStagedFiles
    } else if command.staged_lines {
        step.state is LineFiles && step.action is GetStagedFiles
    } else if command.last_commit {
        step.state is CommitFiles && step.action is GetCommitFiles
    } else if command.path@.len() > 0 && !command.stdin_input {
        step.state is Loading && step.action == LintAction::Load(Sources::Given)
    } else {
        step.state is Loading && step.action == LintAction::Load(Sources::Configured)
    }
}

/// Which checks run.
pub open spec fn mode_of(command: LintCommand) -> LintMode {
    if command.semantics {
        LintMode::SemanticsOnly
    } else {
        LintMode::Full
    }
}

/// How the files of a run over changed lines are linted and fixed.
pub open spec fn plan_of(command: LintCommand) -> FixPlan {
    FixPlan {
        mode: mode_of(command),
        filtered: command.only@.len() > 0,
        safety: crate::fix::safety_of(command.reporting),
    }
}

/// What follows once all whole files are loaded. A rule is explained, and rules are listed,
/// even if there are no files.
pub open spec fn lint_loaded(command: LintCommand, empty: bool, step: LintStep) -> bool {
    let filtered = command.only@.len() > 0;
    let rules = LintAction::GetRules { filtered, include_disabled: command.pedantic };
    if command.explain is Some {
        step.state is Explaining && step.action == rules
    } else if command.list_rules {
        step.state is Listing && step.action == rules
    } else if empty {
        ends(step, ExitStatus::Success, Some(Notice::NoFilesToLint))
    } else {
        step.state is Linting && step.action == (LintAction::Lint {
            mode: mode_of(command),
            filtered,
        })
    }
}

/// What is shown of a rule, and how the command then ends.
pub open spec fn shows_explanation(rules: Seq<RuleMeta>, code: Seq<char>, step: LintStep) -> bool {
    let k = crate::rules::rule_with_code(rules, code);
    let found = k < rules.len();
    &&& step.state is Over
    &&& step.action matches LintAction::Show { listing, status }
    &&& status == (if found {
        ExitStatus::Success
    } else {
        ExitStatus::Failure
    })
    &&& listing matches RuleListing::Document(pieces)
    &&& crate::document::fragments(pieces@) == (if found {
        crate::rules::explanation(rules[k])
    } else {
        crate::rules::not_found_document(code)
    })
}

/// What is shown of all rules.
pub open spec fn shows_rules(rules: Seq<RuleEntry>, json: bool, step: LintStep) -> bool {
    &&& step.state is Over
    &&& step.action matches LintAction::Show { listing, status }
    &&& status == ExitStatus::Success
    &&& match listing {
        RuleListing::Json(entries) => json && entries@ == rules,
        RuleListing::Document(pieces) => !json && crate::document::fragments(pieces@)
            == crate::rules::rule_document(rules),
    }
}

/// What follows once a run over staged lines has finished.
pub open spec fn staged_run_over(
    verdicts: Seq<FileVerdict>,
    no_stage: bool,
    step: LintStep,
) -> bool {
    let changed = crate::verdict::changed(verdicts);
    let skipped = crate::verdict::skipped(verdicts);
    if changed.len() > 0 && !no_stage {
        &&& step.state == LintState::Restaging(changed.len() as usize)
        &&& step.action matches LintAction::StageFiles(files)
        &&& crate::verdict::positions(files@) == changed
    } else if changed.len() > 0 {
        ends(step, ExitStatus::Success, Some(Notice::FixedUnstaged(changed.len() as usize)))
    } else if skipped > 0 {
        ends(step, ExitStatus::Success, Some(Notice::StagedLinesChecked(skipped as usize)))
    } else {
        ends(step, ExitStatus::Success, Some(Notice::StagedLinesClean))
    }
}

/// What follows once a run over the lines of the last commit has finished.
pub open spec fn commit_run_over(verdicts: Seq<FileVerdict>, step: LintStep) -> bool {
    let changed = crate::verdict::changed(verdicts);
    let skipped = crate::verdict::skipped(verdicts);
    if changed.len() > 0 {
        ends(step, ExitStatus::Success, Some(Notice::FixedFromCommit(changed.len() as usize)))
    } else if skipped > 0 {
        ends(step, ExitStatus::Success, Some(Notice::CommitLinesChecked(skipped as usize)))
    } else {
        ends(step, ExitStatus::Success, Some(Notice::CommitLinesClean))
    }
}

/// The command takes over a step of its run.
pub open spec fn takes_over(
    command: LintCommand,
    commit: bool,
    run_step: FileStep,
    step: LintStep,
) -> bool {
    &&& step.refused == run_step.refused
    &&& if !(run_step.run.stage is Over) {
        &&& step.state == (if commit {
            LintState::CommitRun(run_step.run)
        } else {
            LintState::StagedRun(run_step.run)
        })
        &&& step.action == LintAction::File(run_step.action)
    } else if commit {
        commit_run_over(run_step.run.verdicts@, step)
    } else {
        staged_run_over(run_step.run.verdicts@, command.no_stage, step)
    }
}

/// The command starts a run over files that changed as `files` says.
pub open spec fn starts_run(
    command: LintCommand,
    commit: bool,
    files: Seq<ChangeType>,
    step: LintStep,
) -> bool {
    exists|first: FileStep|
        {
            &&& first.run.wf()
            &&& first.run.files@ == files
            &&& first.run.plan == plan_of(command)
            &&& first.run.verdicts@.len() == 0
            &&& first.refused is None
            &&& crate::line_run::begins_file(first.run, first.action)
            &&& #[trigger] takes_over(command, commit, first, step)
        }
}

/// The command goes on with its run.
pub open spec fn continues_run(
    command: LintCommand,
    commit: bool,
    run: LineRun,
    event: FileEvent,
    step: LintStep,
) -> bool {
    exists|next: FileStep|
        {
            &&& next.run.wf()
            &&& crate::line_run::follows(run, event, next)
            &&& #[trigger] takes_over(command, commit, next, step)
        }
}

/// What follows once the files of the last commit are known: the run is over those that
/// have one of the extensions, and needs the flag to fix.
pub open spec fn commit_files_known(
    command: LintCommand,
    files: Seq<CommitFile>,
    extensions: Seq<String>,
    step: LintStep,
) -> bool {
    let chosen = |i: int| crate::commit::is_source(files[i], extensions);
    if files.len() == 0 {
        ends(step, ExitStatus::Success, Some(Notice::NoCommitFiles))
    } else if forall|i: int| 0 <= i < files.len() ==> !#[trigger] chosen(i) {
        ends(step, ExitStatus::Success, Some(Notice::NoPhpCommitFiles))
    } else if !command.reporting.fix {
        ends(step, ExitStatus::Success, Some(Notice::FixRequired))
    } else {
        &&& step.action matches LintAction::Load(Sources::Commit(kept))
        &&& crate::fix::lists_positions(kept@, files.len(), chosen)
        &&& step.state matches LintState::LoadingCommit(changes)
        &&& changes@ == crate::commit::changes(files, kept@)
    }
}

/// The event is what the command waits for.
pub open spec fn lint_answers(state: LintState, event: LintEvent) -> bool {
    match state {
        LintState::StagedFiles | LintState::LineFiles => event is StagedFiles,
        LintState::CleanFiles | LintState::CleanLineFiles(_) => event is Clean,
        LintState::Loading | LintState::LoadingLines(_) | LintState::LoadingCommit(
            _,
        ) => event is Loaded,
        LintState::Explaining => event is Rules,
        LintState::Listing => event is RuleEntries,
        LintState::Linting => event is Reported,
        LintState::Staging | LintState::Restaging(_) => event is Staged,
        LintState::CommitFiles => event is CommitFiles,
        LintState::StagedRun(run) | LintState::CommitRun(run) => match event {
            LintEvent::File(e) => crate::line_run::answers(run, e),
            _ => false,
        },
        LintState::Over => false,
    }
}

/// What follows an event that the command waits for.
pub open spec fn lint_follows(
    command: LintCommand,
    state: LintState,
    event: LintEvent,
    step: LintStep,
) -> bool {
    match (state, event) {
        (LintState::StagedRun(run), LintEvent::File(e)) => continues_run(
            command,
            false,
            run,
            e,
            step,
        ),
        (LintState::CommitRun(run), LintEvent::File(e)) => continues_run(
            command,
            true,
            run,
            e,
            step,
        ),
        (LintState::LoadingLines(n), LintEvent::Loaded { .. }) => starts_run(
            command,
            false,
            Seq::new(n as nat, |i: int| ChangeType::Modified),
            step,
        ),
        (LintState::LoadingCommit(changes), LintEvent::Loaded { .. }) => starts_run(
            command,
            true,
            changes@,
            step,
        ),
        _ => {
            &&& step.refused is None
            &&& lint_decides(command, state, event, step)
        },
    }
}

/// What follows an event outside a run.
pub open spec fn lint_decides(
    command: LintCommand,
    state: LintState,
    event: LintEvent,
    step: LintStep,
) -> bool {
    match (state, event) {
        (LintState::StagedFiles, LintEvent::StagedFiles(n)) => if n == 0 {
            ends(step, ExitStatus::Success, Some(Notice::NoStagedFilesToLint))
        } else if command.reporting.fix {
            step.state is CleanFiles && step.action is EnsureClean
        } else {
            step.state is Loading && step.action == LintAction::Load(Sources::Staged)
        },
        (LintState::CleanFiles, LintEvent::Clean) => {
            step.state is Loading && step.action == LintAction::Load(Sources::Staged)
        },
        (LintState::Loading, LintEvent::Loaded { empty }) => lint_loaded(command, empty, step),
        (LintState::Explaining, LintEvent::Rules(rules)) => match command.explain {
            Some(code) => shows_explanation(rules@, code@, step),
            None => ends(step, ExitStatus::Success, None),
        },
        (LintState::Listing, LintEvent::RuleEntries(rules)) => shows_rules(
            rules@,
            command.json,
            step,
        ),
        (LintState::Linting, LintEvent::Reported { changed }) => if command.staged && changed > 0 {
            step.state is Staging && step.action is StageChanged
        } else {
            ends(step, ExitStatus::Success, None)
        },
        (LintState::Staging, LintEvent::Staged) => ends(step, ExitStatus::Success, None),
        (LintState::LineFiles, LintEvent::StagedFiles(n)) => if n == 0 {
            ends(step, ExitStatus::Success, Some(Notice::NoStagedFilesToLint))
        } else {
            step.state == LintState::CleanLineFiles(n) && step.action is EnsureClean
        },
        (LintState::CleanLineFiles(n), LintEvent::Clean) => if command.reporting.fix {
            step.state == LintState::LoadingLines(n) && step.action == LintAction::Load(
                Sources::Configured,
            )
        } else {
            ends(step, ExitStatus::Success, Some(Notice::FixRequired))
        },
        (LintState::CommitFiles, LintEvent::CommitFiles { files, extensions }) => {
            commit_files_known(command, files@, extensions@, step)
        },
        (LintState::Restaging(n), LintEvent::Staged) => ends(
            step,
            ExitStatus::Success,
            Some(Notice::FixedAndRestaged(n)),
        ),
        _ => false,
    }
}

/// A run that the state holds is at one of its files.
pub open spec fn lint_wf(state: LintState) -> bool {
    match state {
        LintState::StagedRun(run) | LintState::CommitRun(run) => run.wf(),
        _ => true,
    }
}

/// A step outside a run.
fn to(state: LintState, action: LintAction) -> (r: LintStep)
    ensures
        r == (LintStep { state, action, refused: None }),
{
    LintStep { state, action, refused: None }
}

/// The last step.
fn end(status: ExitStatus, notice: Option<Notice>) -> (r: LintStep)
    ensures
        ends(r, status, notice),
        r.refused is None,
{
    to(LintState::Over, LintAction::Finish(status, notice))
}

impl LintCommand {
    /// Begins the command.
    pub fn execute(&self) -> (r: LintStep)
        ensures
            lint_begins(*self, r),
            lint_wf(r.state),
    {
        if !self.stdin_input && self.staged {
            to(LintState::StagedFiles, LintAction::GetStagedFiles)
        } else if self.staged_lines {
            to(LintState::LineFiles, LintAction::GetStagedFiles)
        } else if self.last_commit {
            to(LintState::CommitFiles, LintAction::GetCommitFiles)
        } else if !self.stdin_input && self.path.len() > 0 {
            to(LintState::Loading, LintAction::Load(Sources::Given))
        } else {
            to(LintState::Loading, LintAction::Load(Sources::Configured))
        }
    }

    /// Goes on after an event. Nothing follows an event that the command does not wait for.
    pub fn resume(&self, state: LintState, event: LintEvent) -> (r: Option<LintStep>)
        requires
            lint_wf(state),
        ensures
            r is Some <==> lint_answers(state, event),
            r matches Some(step) ==> lint_wf(step.state) && lint_follows(
                *self,
                state,
                event,
                step,
            ),
    {
        match (state, event) {
            (LintState::StagedFiles, LintEvent::StagedFiles(n)) => {
                if n == 0 {
                    Some(end(ExitStatus::Success, Some(Notice::NoStagedFilesToLint)))
                } else if self.reporting.fix {
                    Some(to(LintState::CleanFiles, LintAction::EnsureClean))
                } else {
                    Some(to(LintState::Loading, LintAction::Load(Sources::Staged)))
                }
            },
            (LintState::CleanFiles, LintEvent::Clean) => {
                Some(to(LintState::Loading, LintAction::Load(Sources::Staged)))
            },
            (LintState::Loading, LintEvent::Loaded { empty }) => Some(self.loaded(empty)),
            (LintState::Explaining, LintEvent::Rules(rules)) => Some(self.explain_one(&rules)),
            (LintState::Listing, LintEvent::RuleEntries(rules)) => {
                let listing = list_rules(rules, self.json);
                let action = LintAction::Show { listing, status: ExitStatus::Success };
                Some(to(LintState::Over, action))
            },
            (LintState::Linting, LintEvent::Reported { changed }) => {
                if self.staged && changed > 0 {
                    Some(to(LintState::Staging, LintAction::StageChanged))
                } else {
                    Some(end(ExitStatus::Success, None))
                }
            },
            (LintState::Staging, LintEvent::Staged) => Some(end(ExitStatus::Success, None)),
            (LintState::LineFiles, LintEvent::StagedFiles(n)) => {
                if n == 0 {
                    Some(end(ExitStatus::Success, Some(Notice::NoStagedFilesToLint)))
                } else {
                    Some(to(LintState::CleanLineFiles(n), LintAction::EnsureClean))
                }
            },
            (LintState::CleanLineFiles(n), LintEvent::Clean) => {
                if self.reporting.fix {
                    Some(to(LintState::LoadingLines(n), LintAction::Load(Sources::Configured)))
                } else {
                    Some(end(ExitStatus::Success, Some(Notice::FixRequired)))
                }
            },
            (LintState::LoadingLines(n), LintEvent::Loaded { .. }) => {
                let files = all_modified(n);
                let first = LineRun::start(files, self.plan());
                Some(self.take_over(false, first))
            },
            (LintState::CommitFiles, LintEvent::CommitFiles { files, extensions }) => {
                Some(self.commit_files(&files, &extensions))
            },
            (LintState::LoadingCommit(changes), LintEvent::Loaded { .. }) => {
                let first = LineRun::start(changes, self.plan());
                Some(self.take_over(true, first))
            },
            (LintState::StagedRun(run), LintEvent::File(e)) => {
                match run.step(e) {
                    Some(next) => Some(self.take_over(false, next)),
                    None => None,
                }
            },
            (LintState::CommitRun(run), LintEvent::File(e)) => {
                match run.step(e) {
                    Some(next) => Some(self.take_over(true, next)),
                    None => None,
                }
            },
            (LintState::Restaging(n), LintEvent::Staged) => {
                Some(end(ExitStatus::Success, Some(Notice::FixedAndRestaged(n))))
            },
            _ => None,
        }
    }

    /// Goes on once all whole files are loaded.
    fn loaded(&self, empty: bool) -> (r: LintStep)
        ensures
            lint_loaded(*self, empty, r),
            r.refused is None,
            lint_wf(r.state),
    {
        let filtered = self.only.len() > 0;
        let rules = LintAction::GetRules { filtered, include_disabled: self.pedantic };
        if self.explain.is_some() {
            to(LintState::Explaining, rules)
        } else if self.list_rules {
            to(LintState::Listing, rules)
        } else if empty {
            end(ExitStatus::Success, Some(Notice::NoFilesToLint))
        } else {
            to(LintState::Linting, LintAction::Lint { mode: self.mode(), filtered })
        }
    }

    /// Which checks run.
    fn mode(&self) -> (r: LintMode)
        ensures
            r == mode_of(*self),
    {
        if self.semantics {
            LintMode::SemanticsOnly
        } else {
            LintMode::Full
        }
    }

    /// How the files of a run over changed lines are linted and fixed.
    fn plan(&self) -> (r: FixPlan)
        ensures
            r == plan_of(*self),
    {
        FixPlan {
            mode: self.mode(),
            filtered: self.only.len() > 0,
            safety: self.reporting.safety(),
        }
    }

    /// Explains the rule that was asked for.
    fn explain_one(&self, rules: &Vec<RuleMeta>) -> (r: LintStep)
        ensures
            match self.explain {
                Some(code) => shows_explanation(rules@, code@, r),
                None => ends(r, ExitStatus::Success, None),
            },
            r.refused is None,
            lint_wf(r.state),
    {
        match &self.explain {
            Some(code) => {
                let (status, pieces) = explain_rule(rules, code.as_str());
                let listing = RuleListing::Document(pieces);
                to(LintState::Over, LintAction::Show { listing, status })
            },
            None => end(ExitStatus::Success, None),
        }
    }

    /// Takes over a step of a run.
    fn take_over(&self, commit: bool, run_step: FileStep) -> (r: LintStep)
        requires
            run_step.run.wf(),
        ensures
            takes_over(*self, commit, run_step, r),
            lint_wf(r.state),
    {
        let FileStep { run, action, refused } = run_step;
        let over = match run.stage {
            FileStage::Over => true,
            _ => false,
        };
        if !over {
            let state = if commit {
                LintState::CommitRun(run)
            } else {
                LintState::StagedRun(run)
            };
            return LintStep { state, action: LintAction::File(action), refused };
        }
        let files = changed_files(&run.verdicts);
        let skipped = skipped_files(&run.verdicts);
        let changed = files.len();
        assert(changed == crate::verdict::changed(run.verdicts@).len());
        let (state, action) = if commit {
            let notice = if changed > 0 {
                Notice::FixedFromCommit(changed)
            } else if skipped > 0 {
                Notice::CommitLinesChecked(skipped)
            } else {
                Notice::CommitLinesClean
            };
            (LintState::Over, LintAction::Finish(ExitStatus::Success, Some(notice)))
        } else if changed > 0 && !self.no_stage {
            (LintState::Restaging(changed), LintAction::StageFiles(files))
        } else {
            let notice = if changed > 0 {
                Notice::FixedUnstaged(changed)
            } else if skipped > 0 {
                Notice::StagedLinesChecked(skipped)
            } else {
                Notice::StagedLinesClean
            };
            (LintState::Over, LintAction::Finish(ExitStatus::Success, Some(notice)))
        };
        LintStep { state, action, refused }
    }

    /// Goes on once the files of the last commit are known.
    fn commit_files(&self, files: &Vec<CommitFile>, extensions: &Vec<String>) -> (r: LintStep)
        ensures
            commit_files_known(*self, files@, extensions@, r),
            r.refused is None,
            lint_wf(r.state),
    {
        if files.len() == 0 {
            return end(ExitStatus::Success, Some(Notice::NoCommitFiles));
        }
        let kept = source_files(files, extensions);
        let ghost chosen = |i: int| crate::commit::is_source(files@[i], extensions@);
        if kept.len() == 0 {
            assert forall|i: int| 0 <= i < files@.len() implies !#[trigger] chosen(i) by {
                if chosen(i) {
                    assert(kept@.contains(i as usize));
                }
            }
            return end(ExitStatus::Success, Some(Notice::NoPhpCommitFiles));
        }
        assert(chosen(kept@[0] as int));
        if !self.reporting.fix {
            return end(ExitStatus::Success, Some(Notice::FixRequired));
        }
        let changes = changes_of(files, &kept);
        to(LintState::LoadingCommit(changes), LintAction::Load(Sources::Commit(kept)))
    }
}

/// So many files that were there before.
fn all_modified(n: usize) -> (r: Vec<ChangeType>)
    ensures
        r@ == Seq::new(n as nat, |i: int| ChangeType::Modified),
{
    let mut r: Vec<ChangeType> = Vec::new();
    let mut i: usize = 0;
    while i < n
        invariant
            i <= n,
            r@ == Seq::new(i as nat, |i: int| ChangeType::Modified),
        decreases n - i,
    {
        r.push(ChangeType::Modified);
        i += 1;
        assert(r@ == Seq::new(i as nat, |i: int| ChangeType::Modified));
    }
    r
}

} // verus!
