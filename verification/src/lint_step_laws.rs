//! What the lint command does next, event by event.
use crate::commit::CommitFile;
use crate::fix::ChangeType;
use crate::line_run::{FileEvent, FileStep, LineRun};
use crate::lint::{LintAction, LintCommand, LintEvent, LintMode, LintState, LintStep, Sources};
use crate::notice::Notice;
use crate::rules::{RuleEntry, RuleListing, RuleMeta};
use crate::status::ExitStatus;
use crate::verdict::FileVerdict;
use vstd::prelude::*;

verus! {

/// The command is over, with success, and tells this.
pub open spec fn succeeds(step: LintStep, notice: Option<Notice>) -> bool {
    step.state is Over && step.action == LintAction::Finish(ExitStatus::Success, notice)
}

/// The command begins with what its flags ask for: staged files before staged lines, those
/// before lines of the last commit, and those before other files, which are the given ones if
/// any are given. The standard input counts neither as staged nor as given.
pub proof fn lint_begins_as_asked(command: LintCommand, step: LintStep)
    requires
        crate::lint::lint_begins(command, step),
    ensures
        step.refused is None,
        command.staged && !command.stdin_input ==> step.state is StagedFiles && step.action
            is GetStagedFiles,
        (!command.staged || command.stdin_input) && command.staged_lines ==> step.state is LineFiles
            && step.action is GetStagedFiles,
        (!command.staged || command.stdin_input) && !command.staged_lines && command.last_commit
            ==> step.state is CommitFiles && step.action is GetCommitFiles,
        (!command.staged || command.stdin_input) && !command.staged_lines && !command.last_commit
            ==> step.state is Loading && step.action == LintAction::Load(
            if command.path@.len() > 0 && !command.stdin_input {
                Sources::Given
            } else {
                Sources::Configured
            },
        ),
{
}

/// Where files are staged they are loaded, but first, if they are to be fixed, it is made
/// sure that they are clean.
pub proof fn staged_files_are_loaded(command: LintCommand, n: usize, step: LintStep)
    requires
        crate::lint::lint_follows(command, LintState::StagedFiles, LintEvent::StagedFiles(n), step),
    ensures
        n == 0 ==> succeeds(step, Some(Notice::NoStagedFilesToLint)),
        n > 0 && command.reporting.fix ==> step.state is CleanFiles && step.action is EnsureClean,
        n > 0 && !command.reporting.fix ==> step.state is Loading && step.action
            == LintAction::Load(Sources::Staged),
{
}

/// Clean files are loaded.
pub proof fn clean_files_are_loaded(command: LintCommand, step: LintStep)
    requires
        crate::lint::lint_follows(command, LintState::CleanFiles, LintEvent::Clean, step),
    ensures
        step.state is Loading,
        step.action == LintAction::Load(Sources::Staged),
{
}

/// Once files are loaded, a rule is explained or the rules are listed if that was asked for.
/// Otherwise the files are linted, if there are any, with all checks unless only semantics
/// were asked for, and with the rules that were named, if any were.
pub proof fn loaded_files_are_linted(command: LintCommand, empty: bool, step: LintStep)
    requires
        crate::lint::lint_follows(command, LintState::Loading, LintEvent::Loaded { empty }, step),
    ensures
        ({
            let rules = LintAction::GetRules {
                filtered: command.only@.len() > 0,
                include_disabled: command.pedantic,
            };
            &&& command.explain is Some ==> step.state is Explaining && step.action == rules
            &&& command.explain is None && command.list_rules ==> step.state is Listing
                && step.action == rules
            &&& command.explain is None && !command.list_rules && empty ==> succeeds(
                step,
                Some(Notice::NoFilesToLint),
            )
            &&& command.explain is None && !command.list_rules && !empty ==> step.state is Linting
                && step.action == (LintAction::Lint {
                mode: if command.semantics {
                    LintMode::SemanticsOnly
                } else {
                    LintMode::Full
                },
                filtered: command.only@.len() > 0,
            })
        }),
{
}

/// The rule with the code that was asked for is explained, and the first if several have it.
/// If none has it, that is a failure.
pub proof fn the_rule_asked_for_is_explained(
    command: LintCommand,
    rules: Vec<RuleMeta>,
    code: String,
    step: LintStep,
    k: int,
)
    requires
        command.explain == Some(code),
        crate::lint::lint_follows(command, LintState::Explaining, LintEvent::Rules(rules), step),
    ensures
        step.state is Over,
        step.action matches LintAction::Show { listing: RuleListing::Document(pieces), status } && {
            &&& 0 <= k < rules@.len() && rules@[k].code@ == code@ && (forall|i: int|
                0 <= i < k ==> (#[trigger] rules@[i]).code@ != code@) ==> status
                == ExitStatus::Success && crate::document::fragments(pieces@)
                == crate::rules::explanation(rules@[k])
            &&& (forall|i: int| 0 <= i < rules@.len() ==> (#[trigger] rules@[i]).code@ != code@)
                ==> status == ExitStatus::Failure && crate::document::fragments(pieces@)
                == crate::rules::not_found_document(code@)
        },
{
    crate::rules_laws::explained_if_there_is_such_a_rule(rules@, code@);
    let found = crate::rules::rule_with_code(rules@, code@);
    if 0 <= k < rules@.len() && rules@[k].code@ == code@ && (forall|i: int|
        0 <= i < k ==> (#[trigger] rules@[i]).code@ != code@) {
        assert(found <= k);
        assert(rules@[found].code@ == code@);
    }
}

/// All rules are listed, as they are where JSON is wanted and otherwise in a table.
pub proof fn all_rules_are_listed(command: LintCommand, rules: Vec<RuleEntry>, step: LintStep)
    requires
        crate::lint::lint_follows(command, LintState::Listing, LintEvent::RuleEntries(rules), step),
    ensures
        step.state is Over,
        step.action matches LintAction::Show { listing, status } && status == ExitStatus::Success
            && (command.json ==> (listing matches RuleListing::Json(entries) && entries@
            == rules@)) && (!command.json ==> (listing matches RuleListing::Document(pieces)
            && crate::document::fragments(pieces@) == crate::rules::rule_document(rules@))),
{
}

/// Files that linting changed are staged, if staged files were linted. The issues that were
/// found are no failure.
pub proof fn changed_files_are_staged(command: LintCommand, changed: usize, step: LintStep)
    requires
        crate::lint::lint_follows(
            command,
            LintState::Linting,
            LintEvent::Reported { changed },
            step,
        ),
    ensures
        command.staged && changed > 0 ==> step.state is Staging && step.action is StageChanged,
        !command.staged || changed == 0 ==> succeeds(step, None),
{
}

/// With the files staged the command is over, and says how many it staged again.
pub proof fn staging_is_the_last_thing(command: LintCommand, n: usize, step: LintStep)
    ensures
        crate::lint::lint_follows(command, LintState::Staging, LintEvent::Staged, step)
            ==> succeeds(step, None),
        crate::lint::lint_follows(command, LintState::Restaging(n), LintEvent::Staged, step)
            ==> succeeds(step, Some(Notice::FixedAndRestaged(n))),
{
}

/// Before staged lines are worked on it is made sure that the files are clean, and without
/// the flag to fix the command ends there.
pub proof fn staged_lines_are_to_be_fixed(command: LintCommand, n: usize, step: LintStep)
    ensures
        crate::lint::lint_follows(command, LintState::LineFiles, LintEvent::StagedFiles(n), step)
            ==> (n == 0 ==> succeeds(step, Some(Notice::NoStagedFilesToLint))) && (n > 0
            ==> step.state == LintState::CleanLineFiles(n) && step.action is EnsureClean),
        crate::lint::lint_follows(command, LintState::CleanLineFiles(n), LintEvent::Clean, step)
            ==> (command.reporting.fix ==> step.state == LintState::LoadingLines(n) && step.action
            == LintAction::Load(Sources::Configured)) && (!command.reporting.fix ==> succeeds(
            step,
            Some(Notice::FixRequired),
        )),
{
}

/// A file of the commit has one of the extensions.
pub open spec fn has_extension(file: CommitFile, extensions: Seq<String>) -> bool {
    file.extension is Some && exists|k: int|
        0 <= k < extensions.len() && (#[trigger] extensions[k])@ == file.extension->Some_0@
}

/// Of the last commit exactly the files with one of the extensions are loaded, each to be
/// fixed as the commit changed it, if there are any and they are to be fixed.
pub proof fn source_files_of_the_commit_are_loaded(
    command: LintCommand,
    files: Vec<CommitFile>,
    extensions: Vec<String>,
    step: LintStep,
)
    requires
        files@.len() <= usize::MAX,
        crate::lint::lint_follows(
            command,
            LintState::CommitFiles,
            LintEvent::CommitFiles { files, extensions },
            step,
        ),
    ensures
        ({
            let none = forall|i: int|
                0 <= i < files@.len() ==> !has_extension(#[trigger] files@[i], extensions@);
            &&& files@.len() == 0 ==> succeeds(step, Some(Notice::NoCommitFiles))
            &&& files@.len() > 0 && none ==> succeeds(step, Some(Notice::NoPhpCommitFiles))
            &&& !none && !command.reporting.fix ==> succeeds(step, Some(Notice::FixRequired))
            &&& !none && command.reporting.fix ==> {
                &&& step.action matches LintAction::Load(Sources::Commit(kept))
                &&& forall|i: usize| #[trigger]
                    kept@.contains(i) <==> i < files@.len() && has_extension(
                        files@[i as int],
                        extensions@,
                    )
                &&& step.state matches LintState::LoadingCommit(changes)
                &&& changes@.len() == kept@.len()
                &&& forall|k: int|
                    0 <= k < kept@.len() ==> #[trigger] changes@[k] == files@[kept@[k] as int].change
            }
        }),
{
    let chosen = |i: int| crate::commit::is_source(files@[i], extensions@);
    assert forall|i: int| 0 <= i < files@.len() implies has_extension(
        #[trigger] files@[i],
        extensions@,
    ) == chosen(i) by {
        crate::sift_laws::sources_have_a_listed_extension(files@[i], extensions@);
    }
    let none = forall|i: int|
        0 <= i < files@.len() ==> !has_extension(#[trigger] files@[i], extensions@);
    if none {
        assert forall|i: int| 0 <= i < files@.len() implies !#[trigger] chosen(i) by {
            assert(!has_extension(files@[i], extensions@));
        }
    } else {
        let i = choose|i: int|
            0 <= i < files@.len() && has_extension(#[trigger] files@[i], extensions@);
        assert(chosen(i));
    }
    if !none && command.reporting.fix {
        let kept = step.action->Load_0->Commit_0@;
        crate::select_laws::lists_name_what_was_chosen(kept, files@.len(), chosen);
        assert forall|i: usize| #[trigger] kept.contains(i) <==> i < files@.len() && has_extension(
            files@[i as int],
            extensions@,
        ) by {
            if i < files@.len() {
                assert(has_extension(files@[i as int], extensions@) == chosen(i as int));
            }
        }
    }
}

/// A run of the command is at its next file, or it is over, and then what it changed decides
/// what is told: how many files were fixed, or else how many were skipped, or else that
/// nothing needed fixing. Files with fixed staged lines are staged again unless that is not
/// wanted.
pub open spec fn takes_up(
    command: LintCommand,
    commit: bool,
    run_step: FileStep,
    step: LintStep,
) -> bool {
    let verdicts = run_step.run.verdicts@;
    let changed = crate::line_step_laws::tally(verdicts, FileVerdict::Changed) as usize;
    let skipped = crate::line_step_laws::tally(verdicts, FileVerdict::Skipped) as usize;
    &&& step.refused == run_step.refused
    &&& !(run_step.run.stage is Over) ==> step.action == LintAction::File(run_step.action)
    &&& !(run_step.run.stage is Over) && commit ==> step.state == LintState::CommitRun(run_step.run)
    &&& !(run_step.run.stage is Over) && !commit ==> step.state == LintState::StagedRun(
        run_step.run,
    )
    &&& run_step.run.stage is Over && commit ==> succeeds(
        step,
        Some(
            if changed > 0 {
                Notice::FixedFromCommit(changed)
            } else if skipped > 0 {
                Notice::CommitLinesChecked(skipped)
            } else {
                Notice::CommitLinesClean
            },
        ),
    )
    &&& run_step.run.stage is Over && !commit && (changed == 0 || command.no_stage) ==> succeeds(
        step,
        Some(
            if changed > 0 {
                Notice::FixedUnstaged(changed)
            } else if skipped > 0 {
                Notice::StagedLinesChecked(skipped)
            } else {
                Notice::StagedLinesClean
            },
        ),
    )
    &&& run_step.run.stage is Over && !commit && changed > 0 && !command.no_stage ==> {
        &&& step.state == LintState::Restaging(changed)
        &&& step.action matches LintAction::StageFiles(files)
        &&& crate::line_step_laws::names_the_changed(files@, verdicts)
    }
}

proof fn lemma_takes_up(command: LintCommand, commit: bool, run_step: FileStep, step: LintStep)
    requires
        run_step.run.verdicts@.len() <= usize::MAX,
        crate::lint::takes_over(command, commit, run_step, step),
    ensures
        takes_up(command, commit, run_step, step),
{
    let verdicts = run_step.run.verdicts@;
    crate::line_step_laws::verdicts_are_tallied(verdicts);
    if run_step.run.stage is Over && !commit && crate::verdict::changed(verdicts).len() > 0
        && !command.no_stage {
        crate::line_step_laws::lemma_names_the_changed(step.action->StageFiles_0@, verdicts);
    }
}

/// Once the files are loaded, a run over them begins: over all staged files as files that
/// were there before, and over those of the commit as it changed them. It runs the rules that
/// were asked for, and applies edits as safe as asked for.
pub proof fn loaded_files_are_run_over(
    command: LintCommand,
    state: LintState,
    empty: bool,
    step: LintStep,
) -> (first: FileStep)
    requires
        state is LoadingLines || state is LoadingCommit,
        crate::lint::lint_follows(command, state, LintEvent::Loaded { empty }, step),
    ensures
        takes_up(command, state is LoadingCommit, first, step),
        first.run.verdicts@.len() == 0,
        first.refused is None,
        crate::line_run::begins_file(first.run, first.action),
        state matches LintState::LoadingLines(n) ==> first.run.files@.len() == n && forall|i: int|
            0 <= i < n ==> #[trigger] first.run.files@[i] == ChangeType::Modified,
        state matches LintState::LoadingCommit(changes) ==> first.run.files@ == changes@,
        first.run.plan.mode == (if command.semantics {
            LintMode::SemanticsOnly
        } else {
            LintMode::Full
        }),
        first.run.plan.filtered == (command.only@.len() > 0),
        first.run.plan.safety == crate::fix::safety_of(command.reporting),
{
    let first = choose|first: FileStep|
        {
            &&& first.run.wf()
            &&& first.run.files@ == (match state {
                LintState::LoadingCommit(changes) => changes@,
                LintState::LoadingLines(n) => Seq::new(
                    n as nat,
                    |i: int| ChangeType::Modified,
                ),
                _ => seq![],
            })
            &&& first.run.plan == crate::lint::plan_of(command)
            &&& first.run.verdicts@.len() == 0
            &&& first.refused is None
            &&& crate::line_run::begins_file(first.run, first.action)
            &&& #[trigger] crate::lint::takes_over(
                command,
                state is LoadingCommit,
                first,
                step,
            )
        };
    lemma_takes_up(command, state is LoadingCommit, first, step);
    first
}

/// A run goes on with every event about its file.
pub proof fn runs_go_on(
    command: LintCommand,
    commit: bool,
    run: LineRun,
    event: FileEvent,
    step: LintStep,
) -> (next: FileStep)
    requires
        crate::lint::lint_follows(
            command,
            if commit {
                LintState::CommitRun(run)
            } else {
                LintState::StagedRun(run)
            },
            LintEvent::File(event),
            step,
        ),
    ensures
        crate::line_run::follows(run, event, next),
        next.run.wf(),
        takes_up(command, commit, next, step),
{
    let next = choose|next: FileStep|
        {
            &&& next.run.wf()
            &&& crate::line_run::follows(run, event, next)
            &&& #[trigger] crate::lint::takes_over(command, commit, next, step)
        };
    assert(next.run.verdicts@.len() <= next.run.files@.len());
    assert(next.run.files@.len() == next.run.files.len());
    lemma_takes_up(command, commit, next, step);
    next
}

/// At each state the command waits for one kind of event, and for no other; of a run, for
/// what the run waits for. When it is over it waits for nothing.
pub proof fn lint_waits_for_what_it_asked(state: LintState, event: LintEvent)
    ensures
        state is StagedFiles || state is LineFiles ==> (crate::lint::lint_answers(state, event)
            <==> event is StagedFiles),
        state is CleanFiles || state is CleanLineFiles ==> (crate::lint::lint_answers(state, event)
            <==> event is Clean),
        state is Loading || state is LoadingLines || state is LoadingCommit ==> (
        crate::lint::lint_answers(state, event) <==> event is Loaded),
        state is Explaining ==> (crate::lint::lint_answers(state, event) <==> event is Rules),
        state is Listing ==> (crate::lint::lint_answers(state, event) <==> event is RuleEntries),
        state is Linting ==> (crate::lint::lint_answers(state, event) <==> event is Reported),
        state is Staging || state is Restaging ==> (crate::lint::lint_answers(state, event)
            <==> event is Staged),
        state is CommitFiles ==> (crate::lint::lint_answers(state, event) <==> event
            is CommitFiles),
        state is Over ==> !crate::lint::lint_answers(state, event),
        state matches LintState::StagedRun(run) ==> (crate::lint::lint_answers(state, event)
            <==> event is File && crate::line_run::answers(run, event->File_0)),
        state matches LintState::CommitRun(run) ==> (crate::lint::lint_answers(state, event)
            <==> event is File && crate::line_run::answers(run, event->File_0)),
{
}

/// Merges are refused in runs only.
pub proof fn only_runs_refuse_merges(
    command: LintCommand,
    state: LintState,
    event: LintEvent,
    step: LintStep,
)
    requires
        crate::lint::lint_follows(command, state, event, step),
        !(event is File),
    ensures
        step.refused is None,
{
}

} // verus!
