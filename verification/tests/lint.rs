//! The lint command.
use mago_lines::commit::CommitFile;
use mago_lines::fix::{ChangeType, FixFlags, FoundIssue, Safety};
use mago_lines::line_run::{FileAction, FileEvent};
use mago_lines::lint::{LintAction, LintCommand, LintEvent, LintMode, LintState, LintStep, Sources};
use mago_lines::merge::{LineRange, MergeError};
use mago_lines::notice::Notice;
use mago_lines::path_key::PathKey;
use mago_lines::rules::{RuleListing, RuleMeta};
use mago_lines::service::{reduce, runs_rules, Findings, LintService};
use mago_lines::status::ExitStatus;

fn command() -> LintCommand {
    LintCommand {
        path: Vec::new(),
        semantics: false,
        pedantic: false,
        explain: None,
        list_rules: false,
        json: false,
        only: Vec::new(),
        staged: false,
        staged_lines: false,
        no_stage: false,
        last_commit: false,
        stdin_input: false,
        reporting: FixFlags { fix: false, allow_unsafe: false, potentially_unsafe: false },
    }
}

fn fixing() -> FixFlags {
    FixFlags { fix: true, allow_unsafe: false, potentially_unsafe: true }
}

fn next(command: &LintCommand, state: LintState, event: LintEvent) -> LintStep {
    command.resume(state, event).unwrap()
}

fn range(start: usize, end: usize) -> LineRange {
    LineRange { start, end }
}

fn issue(line: u32) -> FoundIssue {
    FoundIssue {
        has_edits: true,
        lines: Some((line, line)),
        edits_this_file: true,
        edit_lines: vec![(line, line)],
    }
}

fn commit_file(name: &str, extension: &str, change: ChangeType) -> CommitFile {
    CommitFile {
        path: PathKey { parts: vec![name.as_bytes().to_vec()] },
        extension: Some(extension.to_string()),
        change,
    }
}

#[test]
fn configured_files_are_linted() {
    let command = command();
    let step = command.execute();
    assert!(matches!(step.action, LintAction::Load(Sources::Configured)));
    let step = next(&command, step.state, LintEvent::Loaded { empty: false });
    assert!(matches!(step.action, LintAction::Lint { mode: LintMode::Full, filtered: false }));
    // Issues that were found are no failure.
    let step = next(&command, step.state, LintEvent::Reported { changed: 2 });
    assert!(matches!(step.action, LintAction::Finish(ExitStatus::Success, None)));
    assert!(matches!(step.state, LintState::Over));
}

#[test]
fn given_paths_take_the_place_of_configured_ones() {
    let command = LintCommand { path: vec!["src".into()], ..command() };
    assert!(matches!(command.execute().action, LintAction::Load(Sources::Given)));
    let command = LintCommand { stdin_input: true, ..command };
    assert!(matches!(command.execute().action, LintAction::Load(Sources::Configured)));
}

#[test]
fn nothing_to_lint_is_a_success() {
    let command = command();
    let step = next(&command, command.execute().state, LintEvent::Loaded { empty: true });
    assert!(matches!(
        step.action,
        LintAction::Finish(ExitStatus::Success, Some(Notice::NoFilesToLint))
    ));
}

#[test]
fn semantics_only_and_chosen_rules() {
    let command = LintCommand { semantics: true, ..command() };
    let step = next(&command, command.execute().state, LintEvent::Loaded { empty: false });
    assert!(matches!(step.action, LintAction::Lint { mode: LintMode::SemanticsOnly, .. }));
    let command = LintCommand { semantics: false, only: vec!["no-empty".to_string()], ..command };
    let step = next(&command, command.execute().state, LintEvent::Loaded { empty: false });
    assert!(matches!(step.action, LintAction::Lint { mode: LintMode::Full, filtered: true }));
}

#[test]
fn an_explanation_needs_no_files() {
    let command = LintCommand { explain: Some("x".to_string()), pedantic: true, ..command() };
    let step = next(&command, command.execute().state, LintEvent::Loaded { empty: true });
    assert!(matches!(step.action, LintAction::GetRules { filtered: false, include_disabled: true }));
    let rule = RuleMeta {
        name: "X".to_string(),
        code: "x".to_string(),
        description: "d".to_string(),
        category: "c".to_string(),
        good_example: String::new(),
        bad_example: String::new(),
    };
    let step = next(&command, step.state, LintEvent::Rules(vec![rule]));
    assert!(matches!(step.action, LintAction::Show { status: ExitStatus::Success, .. }));
    let step = next(&command, LintState::Explaining, LintEvent::Rules(Vec::new()));
    assert!(matches!(step.action, LintAction::Show { status: ExitStatus::Failure, .. }));
}

#[test]
fn rules_are_listed() {
    let command = LintCommand { list_rules: true, json: true, ..command() };
    let step = next(&command, command.execute().state, LintEvent::Loaded { empty: true });
    assert!(matches!(step.state, LintState::Listing));
    let step = next(&command, step.state, LintEvent::RuleEntries(Vec::new()));
    match &step.action {
        LintAction::Show { listing: RuleListing::Json(rules), status: ExitStatus::Success } => {
            assert!(rules.is_empty());
        }
        other => panic!("{other:?}"),
    }
}

#[test]
fn staged_files_are_checked_and_staged_again() {
    let command = LintCommand { staged: true, reporting: fixing(), ..command() };
    let step = command.execute();
    assert!(matches!(step.action, LintAction::GetStagedFiles));
    let step = next(&command, step.state, LintEvent::StagedFiles(2));
    assert!(matches!(step.action, LintAction::EnsureClean));
    let step = next(&command, step.state, LintEvent::Clean);
    assert!(matches!(step.action, LintAction::Load(Sources::Staged)));
    let step = next(&command, step.state, LintEvent::Loaded { empty: false });
    let step = next(&command, step.state, LintEvent::Reported { changed: 1 });
    assert!(matches!(step.action, LintAction::StageChanged));
    let step = next(&command, step.state, LintEvent::Staged);
    assert!(matches!(step.action, LintAction::Finish(ExitStatus::Success, None)));
}

#[test]
fn staged_files_need_no_check_without_fixing() {
    let command = LintCommand { staged: true, ..command() };
    let step = next(&command, command.execute().state, LintEvent::StagedFiles(2));
    assert!(matches!(step.action, LintAction::Load(Sources::Staged)));
    let step = next(&command, command.execute().state, LintEvent::StagedFiles(0));
    assert!(matches!(
        step.action,
        LintAction::Finish(ExitStatus::Success, Some(Notice::NoStagedFilesToLint))
    ));
}

#[test]
fn staged_lines_are_fixed_file_by_file() {
    let command = LintCommand { staged_lines: true, reporting: fixing(), ..command() };
    let step = next(&command, command.execute().state, LintEvent::StagedFiles(3));
    assert!(matches!(step.action, LintAction::EnsureClean));
    let step = next(&command, step.state, LintEvent::Clean);
    assert!(matches!(step.action, LintAction::Load(Sources::Configured)));
    let step = next(&command, step.state, LintEvent::Loaded { empty: true });

    // The first file is fixed.
    assert!(matches!(step.action, LintAction::File(FileAction::GetRanges(0))));
    let event = LintEvent::File(FileEvent::Ranges(vec![range(2, 2)]));
    let step = next(&command, step.state, event);
    assert!(matches!(step.action, LintAction::File(FileAction::Read(0))));
    let event = LintEvent::File(FileEvent::Contents("a\nb\nc\n".to_string()));
    let step = next(&command, step.state, event);
    assert!(matches!(
        step.action,
        LintAction::File(FileAction::Lint { file: 0, mode: LintMode::Full, filtered: false })
    ));
    let event = LintEvent::File(FileEvent::Issues(vec![issue(1), issue(2)]));
    let step = next(&command, step.state, event);
    match &step.action {
        LintAction::File(FileAction::ApplyBatches { file, batches, safety }) => {
            assert_eq!((*file, batches.as_slice(), *safety), (0, &[1usize][..], Safety::PotentiallyUnsafe));
        }
        other => panic!("{other:?}"),
    }
    let event = LintEvent::File(FileEvent::Edited {
        applied: vec![true],
        content: "a\nB\nc\n".to_string(),
    });
    let step = next(&command, step.state, event);
    match &step.action {
        LintAction::File(FileAction::Write { file, content }) => {
            assert_eq!((*file, content.as_str()), (0, "a\nB\nc\n"));
        }
        other => panic!("{other:?}"),
    }
    let step = next(&command, step.state, LintEvent::File(FileEvent::Written(true)));

    // The second has no staged lines, and the third is not loaded.
    assert!(matches!(step.action, LintAction::File(FileAction::GetRanges(1))));
    let step = next(&command, step.state, LintEvent::File(FileEvent::Ranges(vec![])));
    assert!(matches!(step.action, LintAction::File(FileAction::GetRanges(2))));
    let event = LintEvent::File(FileEvent::Ranges(vec![range(1, 1)]));
    let step = next(&command, step.state, event);
    let step = next(&command, step.state, LintEvent::File(FileEvent::Missing));

    match &step.action {
        LintAction::StageFiles(files) => assert_eq!(files, &vec![0]),
        other => panic!("{other:?}"),
    }
    let step = next(&command, step.state, LintEvent::Staged);
    assert!(matches!(
        step.action,
        LintAction::Finish(ExitStatus::Success, Some(Notice::FixedAndRestaged(1)))
    ));
}

fn at_first_file(command: &LintCommand) -> LintStep {
    let step = next(command, command.execute().state, LintEvent::StagedFiles(1));
    let step = next(command, step.state, LintEvent::Clean);
    next(command, step.state, LintEvent::Loaded { empty: false })
}

#[test]
fn staged_lines_are_linted_as_the_command_says() {
    let command = LintCommand {
        staged_lines: true,
        semantics: true,
        only: vec!["no-empty".to_string()],
        reporting: fixing(),
        ..command()
    };
    let step = at_first_file(&command);
    let event = LintEvent::File(FileEvent::Ranges(vec![range(1, 1)]));
    let step = next(&command, step.state, event);
    let event = LintEvent::File(FileEvent::Contents("a\n".to_string()));
    let step = next(&command, step.state, event);
    assert!(matches!(
        step.action,
        LintAction::File(FileAction::Lint { file: 0, mode: LintMode::SemanticsOnly, filtered: true })
    ));
}

#[test]
fn changed_lines_are_left_alone_without_fixing() {
    let staged = LintCommand { staged_lines: true, ..command() };
    let step = next(&staged, staged.execute().state, LintEvent::StagedFiles(1));
    assert!(matches!(step.action, LintAction::EnsureClean));
    let step = next(&staged, step.state, LintEvent::Clean);
    assert!(matches!(
        step.action,
        LintAction::Finish(ExitStatus::Success, Some(Notice::FixRequired))
    ));

    let last = LintCommand { last_commit: true, ..command() };
    let event = LintEvent::CommitFiles {
        files: vec![commit_file("a.php", "php", ChangeType::Modified)],
        extensions: vec!["php".to_string()],
    };
    let step = next(&last, last.execute().state, event);
    assert!(matches!(
        step.action,
        LintAction::Finish(ExitStatus::Success, Some(Notice::FixRequired))
    ));
}

#[test]
fn staged_lines_without_issues_are_skipped() {
    let command = LintCommand { staged_lines: true, reporting: fixing(), ..command() };
    let step = at_first_file(&command);
    let event = LintEvent::File(FileEvent::Ranges(vec![range(2, 2)]));
    let step = next(&command, step.state, event);
    let event = LintEvent::File(FileEvent::Contents("a\nb\n".to_string()));
    let step = next(&command, step.state, event);
    let step = next(&command, step.state, LintEvent::File(FileEvent::Issues(vec![issue(1)])));
    assert!(matches!(
        step.action,
        LintAction::Finish(ExitStatus::Success, Some(Notice::StagedLinesChecked(1)))
    ));
}

#[test]
fn refused_merges_are_reported() {
    let command = LintCommand { staged_lines: true, reporting: fixing(), ..command() };
    let step = at_first_file(&command);
    let event = LintEvent::File(FileEvent::Ranges(vec![range(0, 1)]));
    let step = next(&command, step.state, event);
    let event = LintEvent::File(FileEvent::Contents("a\nb\n".to_string()));
    let step = next(&command, step.state, event);
    let step = next(&command, step.state, LintEvent::File(FileEvent::Issues(vec![issue(1)])));
    let event = LintEvent::File(FileEvent::Edited {
        applied: vec![true],
        content: "A\nB\n".to_string(),
    });
    let step = next(&command, step.state, event);
    assert_eq!(step.refused, Some(MergeError::LineNotFound { line: 0 }));
    assert!(matches!(
        step.action,
        LintAction::Finish(ExitStatus::Success, Some(Notice::StagedLinesChecked(1)))
    ));
}

#[test]
fn edits_inside_the_lines_are_tried_alone() {
    let command = LintCommand { staged_lines: true, reporting: fixing(), ..command() };
    let step = at_first_file(&command);
    let event = LintEvent::File(FileEvent::Ranges(vec![range(2, 2)]));
    let step = next(&command, step.state, event);
    let event = LintEvent::File(FileEvent::Contents("a\nb\nc\n".to_string()));
    let step = next(&command, step.state, event);
    let wide = FoundIssue { edit_lines: vec![(2, 2), (1, 1)], ..issue(2) };
    let event = LintEvent::File(FileEvent::Issues(vec![wide, issue(1), issue(2)]));
    let step = next(&command, step.state, event);
    let batches = |step: &LintStep| match &step.action {
        LintAction::File(FileAction::ApplyBatches { batches, .. }) => batches.clone(),
        other => panic!("{other:?}"),
    };
    assert_eq!(batches(&step), vec![0, 2]);
    // Lines were added, and one outside changed too.
    let edited = |content: &str| {
        LintEvent::File(FileEvent::Edited { applied: vec![true], content: content.to_string() })
    };
    let step = next(&command, step.state, edited("x\nn\nd\nc\n"));
    assert_eq!(batches(&step), vec![2]);
    let step = next(&command, step.state, edited("a\nn\nd\nc\n"));
    match &step.action {
        LintAction::File(FileAction::Write { content, .. }) => assert_eq!(content, "a\nn\nd\nc\n"),
        other => panic!("{other:?}"),
    }
}

#[test]
fn a_file_that_cannot_be_written_is_not_counted() {
    let command = LintCommand { last_commit: true, reporting: fixing(), ..command() };
    let step = command.execute();
    assert!(matches!(step.action, LintAction::GetCommitFiles));
    let event = LintEvent::CommitFiles {
        files: vec![commit_file("a.php", "php", ChangeType::Modified)],
        extensions: vec!["php".to_string()],
    };
    let step = next(&command, step.state, event);
    let step = next(&command, step.state, LintEvent::Loaded { empty: false });
    let event = LintEvent::File(FileEvent::Ranges(vec![range(1, 1)]));
    let step = next(&command, step.state, event);
    let event = LintEvent::File(FileEvent::Contents("a\n".to_string()));
    let step = next(&command, step.state, event);
    let step = next(&command, step.state, LintEvent::File(FileEvent::Issues(vec![issue(1)])));
    let event = LintEvent::File(FileEvent::Edited { applied: vec![true], content: "b\n".to_string() });
    let step = next(&command, step.state, event);
    assert!(matches!(step.action, LintAction::File(FileAction::Write { .. })));
    let step = next(&command, step.state, LintEvent::File(FileEvent::Written(false)));
    assert!(matches!(
        step.action,
        LintAction::Finish(ExitStatus::Success, Some(Notice::CommitLinesClean))
    ));
}

#[test]
fn fixed_files_can_be_left_unstaged() {
    let command =
        LintCommand { staged_lines: true, no_stage: true, reporting: fixing(), ..command() };
    let step = at_first_file(&command);
    let event = LintEvent::File(FileEvent::Ranges(vec![range(1, 1)]));
    let step = next(&command, step.state, event);
    let event = LintEvent::File(FileEvent::Contents("a\n".to_string()));
    let step = next(&command, step.state, event);
    let step = next(&command, step.state, LintEvent::File(FileEvent::Issues(vec![issue(1)])));
    let event = LintEvent::File(FileEvent::Edited { applied: vec![true], content: "b\n".to_string() });
    let step = next(&command, step.state, event);
    let step = next(&command, step.state, LintEvent::File(FileEvent::Written(true)));
    assert!(matches!(
        step.action,
        LintAction::Finish(ExitStatus::Success, Some(Notice::FixedUnstaged(1)))
    ));
}

#[test]
fn files_of_the_last_commit_are_filtered() {
    let command = LintCommand { last_commit: true, reporting: fixing(), ..command() };
    let files = |extension: &str| LintEvent::CommitFiles {
        files: vec![
            commit_file("a.txt", "txt", ChangeType::Modified),
            commit_file("b.php", extension, ChangeType::Added),
        ],
        extensions: vec!["php".to_string()],
    };
    let step = next(&command, command.execute().state, files("php"));
    match &step.action {
        LintAction::Load(Sources::Commit(kept)) => assert_eq!(kept, &vec![1]),
        other => panic!("{other:?}"),
    }
    // All issues of a new file count, and its lines are not asked for.
    let step = next(&command, step.state, LintEvent::Loaded { empty: false });
    assert!(matches!(step.action, LintAction::File(FileAction::Read(0))));
    let event = LintEvent::File(FileEvent::Contents("a\n".to_string()));
    let step = next(&command, step.state, event);
    let step = next(&command, step.state, LintEvent::File(FileEvent::Issues(vec![issue(7)])));
    let event = LintEvent::File(FileEvent::Edited { applied: vec![true], content: "b\nc\n".to_string() });
    let step = next(&command, step.state, event);
    match &step.action {
        LintAction::File(FileAction::Write { file, content }) => {
            assert_eq!((*file, content.as_str()), (0, "b\nc\n"));
        }
        other => panic!("{other:?}"),
    }
    let step = next(&command, step.state, LintEvent::File(FileEvent::Written(true)));
    assert!(matches!(
        step.action,
        LintAction::Finish(ExitStatus::Success, Some(Notice::FixedFromCommit(1)))
    ));

    let step = next(&command, command.execute().state, files("md"));
    assert!(matches!(
        step.action,
        LintAction::Finish(ExitStatus::Success, Some(Notice::NoPhpCommitFiles))
    ));
    let event = LintEvent::CommitFiles { files: Vec::new(), extensions: vec!["php".to_string()] };
    let step = next(&command, command.execute().state, event);
    assert!(matches!(
        step.action,
        LintAction::Finish(ExitStatus::Success, Some(Notice::NoCommitFiles))
    ));
}

#[test]
fn unexpected_events_lead_nowhere() {
    let command = command();
    assert!(command.resume(command.execute().state, LintEvent::Staged).is_none());
    assert!(command.resume(LintState::Over, LintEvent::Clean).is_none());
}

fn findings(parse_errors: &[u8], semantic: &[u8], rules: &[u8]) -> Findings<u8> {
    Findings {
        parse_errors: parse_errors.to_vec(),
        semantic: semantic.to_vec(),
        rules: rules.to_vec(),
    }
}

#[test]
fn a_file_has_the_issues_of_all_checks() {
    let service = LintService::new("database", 1, 2, true);
    assert_eq!(service.database, "database");
    assert!(service.use_progress_bars);
    assert_eq!(service.lint_file(LintMode::Full, findings(&[1], &[2, 3], &[4])), vec![1, 2, 3, 4]);
    assert_eq!(
        service.lint_file(LintMode::SemanticsOnly, findings(&[1], &[2, 3], &[4])),
        vec![1, 2, 3]
    );
    assert!(runs_rules(LintMode::Full));
    assert!(!runs_rules(LintMode::SemanticsOnly));
}

#[test]
fn issues_come_in_the_order_of_the_files() {
    let service = LintService::new((), (), (), false);
    let files = vec![findings(&[1], &[2], &[3]), findings(&[], &[], &[]), findings(&[4], &[], &[5])];
    assert_eq!(service.lint(LintMode::Full, files), vec![1, 2, 3, 4, 5]);
    assert_eq!(reduce(vec![vec![1], vec![], vec![2, 3]]), vec![1, 2, 3]);
    assert_eq!(reduce(Vec::<Vec<u8>>::new()), Vec::<u8>::new());
}
