//! The analyze command and its watch mode.
use mago_lines::analyze::{AnalyzeAction, AnalyzeCommand, AnalyzeEvent, AnalyzeState, AnalyzeStep};
use mago_lines::commit::CommitFile;
use mago_lines::fix::{ChangeType, FixFlags};
use mago_lines::issue_run::{IssueAction, IssueEvent, Place};
use mago_lines::lint::Sources;
use mago_lines::merge::LineRange;
use mago_lines::notice::Notice;
use mago_lines::path_key::PathKey;
use mago_lines::status::ExitStatus;
use mago_lines::watch::{
    adopt_reloaded, distinct_dirs, restart_reason, restart_watch_list, ChangeKind, ChangedPath,
    WatchAction, WatchEvent, WatchFile, WatchState, WatchedFile,
};

fn command() -> AnalyzeCommand {
    AnalyzeCommand {
        path: Vec::new(),
        no_stubs: false,
        watch: false,
        list_codes: false,
        staged: false,
        staged_lines: false,
        no_stage: false,
        last_commit: false,
        stdin_input: false,
        only: Vec::new(),
        reporting: FixFlags { fix: false, allow_unsafe: false, potentially_unsafe: false },
    }
}

fn fixing() -> FixFlags {
    FixFlags { fix: true, allow_unsafe: false, potentially_unsafe: false }
}

fn next(command: &AnalyzeCommand, state: AnalyzeState, event: AnalyzeEvent) -> AnalyzeStep {
    command.resume(state, event).unwrap()
}

fn key(parts: &[&str]) -> PathKey {
    PathKey { parts: parts.iter().map(|p| p.as_bytes().to_vec()).collect() }
}

fn located(path: &[&str], start_line: u32, end_line: u32) -> AnalyzeEvent {
    AnalyzeEvent::Issue(IssueEvent::Located(Place { path: key(path), start_line, end_line }))
}

fn ranges(start: usize, end: usize) -> AnalyzeEvent {
    AnalyzeEvent::Issue(IssueEvent::Ranges(vec![LineRange { start, end }]))
}

#[test]
fn the_flag_of_the_linter_is_refused() {
    let command = AnalyzeCommand {
        only: vec!["a".to_string(), "b".to_string()],
        list_codes: true,
        ..command()
    };
    match command.execute().action {
        AnalyzeAction::Reject { text, status } => {
            assert_eq!(status, ExitStatus::Failure);
            assert_eq!(
                text,
                "error: the `--only` flag is not available for the analyzer.\n\n\
                 \u{20} Unlike the linter, the analyzer is not rule-based and does not support\n\
                 \u{20} selectively enabling individual checks.\n\n\
                 \u{20} To filter the output to specific issue codes, use `--retain-code`:\n\n\
                 \u{20}   mago analyze --retain-code a --retain-code b\n\n\
                 \u{20} This runs the full analysis but only reports issues matching the given codes.\n\
                 \u{20} Use `mago analyze --list-codes` to see all available codes.\n"
            );
        }
        other => panic!("{other:?}"),
    }
}

#[test]
fn issue_codes_are_listed() {
    let command = AnalyzeCommand { list_codes: true, watch: true, ..command() };
    let step = command.execute();
    assert!(matches!(step.action, AnalyzeAction::GetCodes));
    let event = AnalyzeEvent::Codes(vec!["one".to_string(), "two".to_string()]);
    match next(&command, step.state, event).action {
        AnalyzeAction::Show { text, status } => {
            assert_eq!(status, ExitStatus::Success);
            assert_eq!(text, "[\n  \"one\",\n  \"two\"\n]");
        }
        other => panic!("{other:?}"),
    }
}

#[test]
fn configured_files_are_analyzed() {
    let command = command();
    let step = command.execute();
    assert!(matches!(
        step.action,
        AnalyzeAction::Load { sources: Sources::Configured, stubs: true }
    ));
    let step = next(&command, step.state, AnalyzeEvent::Loaded { has_host: true });
    assert!(matches!(step.action, AnalyzeAction::Analyze));
    let event = AnalyzeEvent::Reported { status: ExitStatus::Failure, changed: 3 };
    let step = next(&command, step.state, event);
    assert!(matches!(step.action, AnalyzeAction::Finish(ExitStatus::Failure, None)));
}

#[test]
fn given_paths_are_analyzed_without_stubs() {
    let command = AnalyzeCommand { path: vec!["src".into()], no_stubs: true, ..command() };
    let step = command.execute();
    assert!(matches!(step.action, AnalyzeAction::Load { sources: Sources::Given, stubs: false }));
    let step = next(&command, step.state, AnalyzeEvent::Loaded { has_host: false });
    assert!(matches!(
        step.action,
        AnalyzeAction::Finish(ExitStatus::Success, Some(Notice::NoFilesToAnalyze))
    ));
}

#[test]
fn staged_files_are_staged_again_after_analysis() {
    let command = AnalyzeCommand {
        staged: true,
        reporting: fixing(),
        ..command()
    };
    let step = next(&command, command.execute().state, AnalyzeEvent::StagedFiles(1));
    assert!(matches!(step.action, AnalyzeAction::EnsureClean));
    let step = next(&command, step.state, AnalyzeEvent::Clean);
    assert!(matches!(step.action, AnalyzeAction::Load { sources: Sources::Staged, .. }));
    let step = next(&command, step.state, AnalyzeEvent::Loaded { has_host: true });
    let event = AnalyzeEvent::Reported { status: ExitStatus::Failure, changed: 1 };
    let step = next(&command, step.state, event);
    assert!(matches!(step.action, AnalyzeAction::StageChanged));
    let step = next(&command, step.state, AnalyzeEvent::Staged);
    assert!(matches!(step.action, AnalyzeAction::Finish(ExitStatus::Failure, None)));
}

fn sifting_staged(command: &AnalyzeCommand, issues: usize) -> AnalyzeStep {
    let step = next(command, command.execute().state, AnalyzeEvent::StagedFiles(1));
    assert!(matches!(step.action, AnalyzeAction::EnsureClean));
    let step = next(command, step.state, AnalyzeEvent::Clean);
    assert!(matches!(step.action, AnalyzeAction::Load { sources: Sources::Staged, .. }));
    let step = next(command, step.state, AnalyzeEvent::Loaded { has_host: true });
    assert!(matches!(step.action, AnalyzeAction::FindIssues));
    next(command, step.state, AnalyzeEvent::Issues(issues))
}

#[test]
fn issues_in_staged_lines_are_reported() {
    let command = AnalyzeCommand { staged_lines: true, reporting: fixing(), ..command() };
    let step = sifting_staged(&command, 4);
    assert!(matches!(step.action, AnalyzeAction::Issue(IssueAction::Locate(0))));
    let step = next(&command, step.state, AnalyzeEvent::Issue(IssueEvent::Nowhere));
    assert!(matches!(step.action, AnalyzeAction::Issue(IssueAction::Locate(1))));
    let step = next(&command, step.state, located(&["a"], 3, 4));
    assert!(matches!(step.action, AnalyzeAction::Issue(IssueAction::GetRanges(1))));
    let step = next(&command, step.state, ranges(4, 9));
    let step = next(&command, step.state, located(&["a"], 3, 4));
    let step = next(&command, step.state, ranges(5, 9));
    let step = next(&command, step.state, located(&["b"], 1, 1));
    let step = next(&command, step.state, AnalyzeEvent::Issue(IssueEvent::NoRanges));
    match &step.action {
        AnalyzeAction::Report(issues) => assert_eq!(issues, &vec![1]),
        other => panic!("{other:?}"),
    }
    let event = AnalyzeEvent::Reported { status: ExitStatus::Failure, changed: 2 };
    let step = next(&command, step.state, event);
    assert!(matches!(step.action, AnalyzeAction::StageChanged));
    let step = next(&command, step.state, AnalyzeEvent::Staged);
    assert!(matches!(
        step.action,
        AnalyzeAction::Finish(ExitStatus::Failure, Some(Notice::FixedAndRestaged(2)))
    ));
}

#[test]
fn files_changed_by_analysis_can_be_left_unstaged() {
    let command =
        AnalyzeCommand { staged_lines: true, no_stage: true, reporting: fixing(), ..command() };
    for (changed, notice) in [(2, Notice::FixedUnstaged(2)), (0, Notice::NoStagedLineFixes)] {
        let step = sifting_staged(&command, 0);
        let event = AnalyzeEvent::Reported { status: ExitStatus::Failure, changed };
        match next(&command, step.state, event).action {
            AnalyzeAction::Finish(ExitStatus::Failure, Some(told)) => assert_eq!(told, notice),
            other => panic!("{other:?}"),
        }
    }
}

#[test]
fn issues_in_new_files_of_the_last_commit_are_reported() {
    let command = AnalyzeCommand { last_commit: true, reporting: fixing(), ..command() };
    let file = |name: &str, change| CommitFile {
        path: key(&[name]),
        extension: Some("php".to_string()),
        change,
    };
    let event = AnalyzeEvent::CommitFiles {
        files: vec![file("old.php", ChangeType::Modified), file("new.php", ChangeType::Added)],
        extensions: vec!["php".to_string()],
    };
    let step = next(&command, command.execute().state, event);
    assert!(matches!(step.action, AnalyzeAction::Load { sources: Sources::Commit(_), stubs: true }));
    let step = next(&command, step.state, AnalyzeEvent::Loaded { has_host: true });
    let step = next(&command, step.state, AnalyzeEvent::Issues(3));
    let step = next(&command, step.state, located(&["new.php"], 7, 7));
    // The lines of a file that the commit does not name are asked for too.
    assert!(matches!(step.action, AnalyzeAction::Issue(IssueAction::Locate(1))));
    let step = next(&command, step.state, located(&["unknown.php"], 7, 7));
    let step = next(&command, step.state, ranges(1, 2));
    let step = next(&command, step.state, located(&["old.php"], 2, 7));
    let step = next(&command, step.state, ranges(1, 2));
    match &step.action {
        AnalyzeAction::Report(issues) => assert_eq!(issues, &vec![0, 2]),
        other => panic!("{other:?}"),
    }
    let event = AnalyzeEvent::Reported { status: ExitStatus::Failure, changed: 0 };
    let step = next(&command, step.state, event);
    assert!(matches!(
        step.action,
        AnalyzeAction::Finish(ExitStatus::Failure, Some(Notice::NoCommitLineFixes))
    ));
}

#[test]
fn changed_lines_are_not_analyzed_without_fixing() {
    let staged = AnalyzeCommand { staged_lines: true, ..command() };
    let step = next(&staged, staged.execute().state, AnalyzeEvent::StagedFiles(1));
    assert!(matches!(step.action, AnalyzeAction::EnsureClean));
    let step = next(&staged, step.state, AnalyzeEvent::Clean);
    assert!(matches!(
        step.action,
        AnalyzeAction::Finish(ExitStatus::Success, Some(Notice::FixRequired))
    ));

    let last = AnalyzeCommand { last_commit: true, ..command() };
    let event = AnalyzeEvent::CommitFiles {
        files: vec![CommitFile {
            path: key(&["a.php"]),
            extension: Some("php".to_string()),
            change: ChangeType::Modified,
        }],
        extensions: vec!["php".to_string()],
    };
    let step = next(&last, last.execute().state, event);
    assert!(matches!(
        step.action,
        AnalyzeAction::Finish(ExitStatus::Success, Some(Notice::FixRequired))
    ));
}

#[test]
fn configuration_baseline_and_composer_files_are_watched() {
    let name = |file: &WatchFile| match file {
        WatchFile::Config => "<config>".to_string(),
        WatchFile::Baseline => "<baseline>".to_string(),
        WatchFile::InWorkspace(name) => name.clone(),
    };
    let list = |has_config, has_baseline| -> Vec<(String, String)> {
        restart_watch_list(has_config, has_baseline)
            .iter()
            .map(|t| (name(&t.file), t.label.clone()))
            .collect()
    };
    let pair = |a: &str, b: &str| (a.to_string(), b.to_string());
    assert_eq!(
        list(true, true),
        vec![
            pair("<config>", "configuration file"),
            pair("<baseline>", "baseline file"),
            pair("composer.json", "composer.json"),
            pair("composer.lock", "composer.lock"),
        ]
    );
    let names: Vec<String> = list(false, false).into_iter().map(|(name, _)| name).collect();
    assert_eq!(
        names,
        vec![
            "mago.toml",
            "mago.yaml",
            "mago.yml",
            "mago.json",
            "mago.dist.toml",
            "mago.dist.yaml",
            "mago.dist.yml",
            "mago.dist.json",
            "composer.json",
            "composer.lock",
        ]
    );
}

fn changed(raw: &str, canonical: Option<&str>) -> ChangedPath {
    ChangedPath { raw: key(&[raw]), canonical: canonical.map(|c| key(&[c])), display: format!("/{raw}") }
}

fn watched(raw: &str, canonical: Option<&str>, label: &str) -> WatchedFile {
    WatchedFile { raw: key(&[raw]), canonical: canonical.map(|c| key(&[c])), label: label.to_string() }
}

#[test]
fn changes_of_watched_files_start_over() {
    let files = vec![watched("a", Some("x"), "first"), watched("b", None, "second")];
    let reason = |kind, paths: Vec<ChangedPath>| restart_reason(kind, &paths, &files);
    let told = |s: &str| Some(s.to_string());
    assert_eq!(reason(ChangeKind::Modify, vec![changed("l", Some("x"))]), told("first changed (/l)"));
    assert_eq!(reason(ChangeKind::Create, vec![changed("a", Some("y"))]), None);
    assert_eq!(reason(ChangeKind::Remove, vec![changed("a", None)]), told("first changed (/a)"));
    assert_eq!(
        reason(ChangeKind::Modify, vec![changed("z", None), changed("b", Some("q")), changed("a", None)]),
        told("second changed (/b)")
    );
    assert_eq!(reason(ChangeKind::Other, vec![changed("a", None)]), None);
    assert_eq!(reason(ChangeKind::Modify, vec![]), None);
}

#[test]
fn directories_are_watched_once() {
    let dirs = vec![key(&["w"]), key(&["w", "sub"]), key(&["w"]), key(&["v"]), key(&["w", "sub"])];
    assert_eq!(distinct_dirs(&dirs), vec![0, 1, 3]);
}

#[test]
fn watch_mode_goes_round() {
    let command = AnalyzeCommand { watch: true, path: vec!["src".into()], ..command() };
    assert!(matches!(command.execute().action, AnalyzeAction::Watch));
    let step = command.watch_start();
    assert!(matches!(step.action, WatchAction::Load { sources: Sources::Given, stubs: true }));
    let go = |state, event| command.watch_resume(state, event).unwrap();
    let step = go(step.state, WatchEvent::Loaded);
    assert!(matches!(step.action, WatchAction::WatchFiles));
    let step = go(step.state, WatchEvent::Watching);
    assert!(matches!(step.action, WatchAction::Analyze));
    let step = go(step.state, WatchEvent::Analyzed);
    assert!(matches!(step.action, WatchAction::CheckRestart));
    let step = go(step.state, WatchEvent::NoRestart);
    assert!(matches!(step.action, WatchAction::Wait));
    let step = go(step.state, WatchEvent::Changed(0));
    assert!(matches!(step.action, WatchAction::CheckRestart));
    let step = go(step.state, WatchEvent::NoRestart);
    let step = go(step.state, WatchEvent::Changed(2));
    assert!(matches!(step.action, WatchAction::Reanalyze(Notice::Reanalyzing(2))));
    let step = go(step.state, WatchEvent::Analyzed);
    let event = WatchEvent::Restart { reason: "x changed (y)".to_string(), explicit: true };
    let step = go(step.state, event);
    match &step.action {
        WatchAction::Reload { notice, pinned } => {
            assert_eq!(notice, "Restarting analysis: x changed (y)");
            assert!(*pinned);
        }
        other => panic!("{other:?}"),
    }
    let step = go(step.state, WatchEvent::Reloaded);
    assert!(matches!(step.action, WatchAction::Load { sources: Sources::Given, stubs: true }));
    assert!(command.watch_resume(WatchState::Waiting, WatchEvent::Loaded).is_none());
}

#[test]
fn a_configuration_that_cannot_be_read_stays() {
    assert_eq!(adopt_reloaded("old", Some("new")), "new");
    assert_eq!(adopt_reloaded("old", None), "old");
}
