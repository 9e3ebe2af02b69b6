//! The format command.
use mago_lines::format::{FormatAction, FormatCommand, FormatEvent, FormatState, FormatStep};
use mago_lines::format_run::{FormatFileAction, FormatFileEvent};
use mago_lines::lint::Sources;
use mago_lines::merge::LineRange;
use mago_lines::notice::Notice;
use mago_lines::status::ExitStatus;

fn command() -> FormatCommand {
    FormatCommand {
        path: Vec::new(),
        dry_run: false,
        check: false,
        stdin_input: false,
        staged: false,
        staged_lines: false,
        no_stage: false,
    }
}

fn next(command: &FormatCommand, state: FormatState, event: FormatEvent) -> FormatStep {
    command.resume(state, event).unwrap()
}

fn finished(step: FormatStep) -> (ExitStatus, Option<Notice>) {
    match step.action {
        FormatAction::Finish(status, notice) => (status, notice),
        other => panic!("{other:?}"),
    }
}

fn formatted(command: &FormatCommand, n: usize) -> FormatStep {
    let step = next(command, command.execute().state, FormatEvent::Loaded);
    assert!(matches!(step.action, FormatAction::FormatAll));
    next(command, step.state, FormatEvent::Formatted(n))
}

#[test]
fn files_are_formatted_in_place() {
    let command = command();
    let step = formatted(&command, 2);
    assert!(matches!(step.action, FormatAction::Commit { dry_run: false }));
    let step = next(&command, step.state, FormatEvent::Committed);
    assert_eq!(finished(step), (ExitStatus::Success, Some(Notice::Formatted(2))));
}

#[test]
fn formatted_files_are_a_success() {
    for (check, dry_run) in [(false, false), (true, false), (false, true)] {
        let command = FormatCommand { check, dry_run, ..command() };
        assert_eq!(
            finished(formatted(&command, 0)),
            (ExitStatus::Success, Some(Notice::AllFormatted))
        );
    }
}

#[test]
fn a_check_fails_if_files_need_formatting() {
    let command = FormatCommand { check: true, ..command() };
    assert_eq!(
        finished(formatted(&command, 3)),
        (ExitStatus::Failure, Some(Notice::NeedFormatting(3)))
    );
}

#[test]
fn a_dry_run_only_shows_changes() {
    let command = FormatCommand { dry_run: true, ..command() };
    let step = formatted(&command, 3);
    assert!(matches!(step.action, FormatAction::Commit { dry_run: true }));
    let step = next(&command, step.state, FormatEvent::Committed);
    assert_eq!(finished(step), (ExitStatus::Success, Some(Notice::WouldFormat(3))));
}

#[test]
fn given_paths_are_formatted() {
    let command = FormatCommand { path: vec!["src".into()], ..command() };
    assert!(matches!(command.execute().action, FormatAction::Load(Sources::Given)));
}

#[test]
fn the_standard_input_is_formatted() {
    let command = FormatCommand { stdin_input: true, ..command() };
    let start = || command.execute();
    assert!(matches!(start().action, FormatAction::FormatStdin));
    let printed = |event| match next(&command, start().state, event).action {
        FormatAction::Print { text, status: ExitStatus::Success } => text,
        other => panic!("{other:?}"),
    };
    assert_eq!(printed(FormatEvent::StdinUnchanged { input: "in".to_string() }), "in");
    assert_eq!(printed(FormatEvent::StdinChanged { output: "out".to_string() }), "out");
    let step = next(&command, start().state, FormatEvent::StdinUnparsable);
    assert_eq!(finished(step), (ExitStatus::Error, None));
}

#[test]
fn staged_files_are_formatted_and_staged_again() {
    let command = FormatCommand { staged: true, ..command() };
    let step = command.execute();
    assert!(matches!(step.action, FormatAction::Load(Sources::Configured)));
    let step = next(&command, step.state, FormatEvent::Loaded);
    assert!(matches!(step.action, FormatAction::GetStagedCleanFiles));
    let step = next(&command, step.state, FormatEvent::StagedFiles(4));
    assert!(matches!(step.action, FormatAction::FormatStaged));
    let step = next(&command, step.state, FormatEvent::Formatted(2));
    assert!(matches!(step.action, FormatAction::Commit { dry_run: false }));
    let step = next(&command, step.state, FormatEvent::Committed);
    assert!(matches!(step.action, FormatAction::StageChanged));
    let step = next(&command, step.state, FormatEvent::Staged);
    assert_eq!(finished(step), (ExitStatus::Success, Some(Notice::FormattedAndRestaged(2))));
}

#[test]
fn staged_files_may_need_nothing() {
    let command = FormatCommand { staged: true, ..command() };
    let start = || next(&command, command.execute().state, FormatEvent::Loaded);
    let step = next(&command, start().state, FormatEvent::StagedFiles(0));
    assert_eq!(finished(step), (ExitStatus::Success, Some(Notice::NoStagedFilesToFormat)));
    let step = next(&command, start().state, FormatEvent::StagedFiles(1));
    let step = next(&command, step.state, FormatEvent::Formatted(0));
    assert_eq!(finished(step), (ExitStatus::Success, Some(Notice::AllStagedFormatted)));
}

fn at_lines(command: &FormatCommand, n: usize) -> FormatStep {
    let step = next(command, command.execute().state, FormatEvent::Loaded);
    assert!(matches!(step.action, FormatAction::GetStagedFiles));
    let step = next(command, step.state, FormatEvent::StagedFiles(n));
    assert!(matches!(step.action, FormatAction::EnsureClean));
    next(command, step.state, FormatEvent::Clean)
}

fn file(event: FormatFileEvent) -> FormatEvent {
    FormatEvent::File(event)
}

fn some_range() -> Vec<LineRange> {
    vec![LineRange { start: 1, end: 2 }]
}

#[test]
fn staged_lines_are_formatted_file_by_file() {
    for no_stage in [false, true] {
        let command = FormatCommand { staged_lines: true, no_stage, ..command() };
        let step = at_lines(&command, 2);
        let step = next(&command, step.state, file(FormatFileEvent::Ranges(Vec::new())));
        let step = next(&command, step.state, file(FormatFileEvent::Ranges(some_range())));
        assert!(matches!(step.action, FormatAction::File(FormatFileAction::Find(1))));
        let step = next(&command, step.state, file(FormatFileEvent::Found));
        match &step.action {
            FormatAction::File(FormatFileAction::FormatLines { file, ranges }) => {
                assert_eq!((*file, ranges), (1, &some_range()));
            }
            other => panic!("{other:?}"),
        }
        let step = next(&command, step.state, file(FormatFileEvent::Changed("new".to_string())));
        match &step.action {
            FormatAction::File(FormatFileAction::Write { file, content }) => {
                assert_eq!((*file, content.as_str()), (1, "new"));
            }
            other => panic!("{other:?}"),
        }
        let step = next(&command, step.state, file(FormatFileEvent::Written(true)));
        if no_stage {
            assert_eq!(finished(step), (ExitStatus::Success, Some(Notice::FormattedUnstaged(1))));
        } else {
            match &step.action {
                FormatAction::StageFiles(files) => assert_eq!(files, &vec![1]),
                other => panic!("{other:?}"),
            }
            let step = next(&command, step.state, FormatEvent::Staged);
            assert_eq!(
                finished(step),
                (ExitStatus::Success, Some(Notice::FormattedAndRestaged(1)))
            );
        }
    }
}

#[test]
fn files_that_are_not_formatted_are_not_counted() {
    let command = FormatCommand { staged_lines: true, ..command() };
    for outcome in [
        FormatFileEvent::Unchanged,
        FormatFileEvent::FailedToParse,
        FormatFileEvent::Failed,
    ] {
        let step = at_lines(&command, 1);
        let step = next(&command, step.state, file(FormatFileEvent::Ranges(some_range())));
        let step = next(&command, step.state, file(FormatFileEvent::Found));
        let step = next(&command, step.state, file(outcome));
        assert_eq!(finished(step), (ExitStatus::Success, Some(Notice::StagedLinesFormatted)));
    }
    let step = at_lines(&command, 1);
    let step = next(&command, step.state, file(FormatFileEvent::Ranges(some_range())));
    let step = next(&command, step.state, file(FormatFileEvent::Missing));
    assert_eq!(finished(step), (ExitStatus::Success, Some(Notice::StagedFormatChecked(1))));
}

#[test]
fn events_out_of_turn_lead_nowhere() {
    let command = command();
    assert!(command.resume(FormatState::Loading, FormatEvent::Staged).is_none());
    assert!(command.resume(FormatState::Over, FormatEvent::Loaded).is_none());
}
