//! Selecting issues and taking fixed lines over.
use mago_lines::commit::{change_of, changes_of, source_files, CommitFile};
use mago_lines::fix::{
    cut_chunks, fix_outcome, select_batches, select_within, touches_any, ChangeType, FixFlags,
    FixOutcome, FixScope, FoundIssue, Safety,
};
use mago_lines::merge::{LineRange, MergeError};
use mago_lines::path_key::PathKey;
use mago_lines::verdict::{changed_files, skipped_files, FileVerdict};

fn range(start: usize, end: usize) -> LineRange {
    LineRange { start, end }
}

fn issue(start_line: u32, end_line: u32) -> FoundIssue {
    FoundIssue {
        has_edits: true,
        lines: Some((start_line, end_line)),
        edits_this_file: true,
        edit_lines: vec![(start_line, end_line)],
    }
}

fn key(parts: &[&str]) -> PathKey {
    PathKey { parts: parts.iter().map(|p| p.as_bytes().to_vec()).collect() }
}

fn commit_file(path: &[&str], extension: Option<&str>, change: ChangeType) -> CommitFile {
    CommitFile { path: key(path), extension: extension.map(|e| e.to_string()), change }
}

#[test]
fn safety_follows_the_flags() {
    let flags = |allow_unsafe, potentially_unsafe| FixFlags { fix: true, allow_unsafe, potentially_unsafe };
    assert_eq!(flags(false, false).safety(), Safety::Safe);
    assert_eq!(flags(false, true).safety(), Safety::PotentiallyUnsafe);
    assert_eq!(flags(true, false).safety(), Safety::Unsafe);
    assert_eq!(flags(true, true).safety(), Safety::Unsafe);
}

#[test]
fn an_issue_touches_ranges_with_a_common_line() {
    let ranges = [range(3, 5), range(10, 10)];
    assert!(touches_any(&ranges, 5, 7));
    assert!(touches_any(&ranges, 1, 3));
    assert!(touches_any(&ranges, 1, 20));
    assert!(touches_any(&ranges, 10, 10));
    assert!(!touches_any(&ranges, 6, 9));
    assert!(!touches_any(&ranges, 11, 11));
    assert!(!touches_any(&[], 1, 9));
}

#[test]
fn large_line_numbers_are_compared_as_they_are() {
    let big = (1usize << 32) + 3;
    assert!(!touches_any(&[range(big, big)], 3, 3));
    assert!(touches_any(&[range(2, big)], 3, 3));
}

#[test]
fn only_issues_with_edits_in_the_ranges_are_selected() {
    let issues = vec![
        issue(1, 1),
        issue(4, 6),
        FoundIssue { has_edits: false, ..issue(4, 4) },
        FoundIssue { lines: None, ..issue(4, 4) },
        FoundIssue { edits_this_file: false, ..issue(4, 4) },
        issue(3, 3),
    ];
    assert_eq!(select_batches(&FixScope::Lines(vec![range(3, 4)]), &issues), vec![1, 5]);
    assert_eq!(select_batches(&FixScope::WholeFile, &issues), vec![0, 1, 5]);
    assert_eq!(select_batches(&FixScope::Lines(vec![]), &issues), Vec::<usize>::new());
}

#[test]
fn issues_with_edits_outside_the_ranges_are_told_apart() {
    let issues = vec![
        issue(3, 3),
        issue(4, 6),
        FoundIssue { edit_lines: vec![(3, 3), (9, 9)], ..issue(3, 3) },
        FoundIssue { edit_lines: vec![(4, 4), (8, 9)], ..issue(3, 3) },
        issue(1, 1),
    ];
    let scope = FixScope::Lines(vec![range(3, 4), range(8, 9)]);
    assert_eq!(select_within(&scope, &issues), vec![0, 2, 3]);
    assert_eq!(select_within(&FixScope::WholeFile, &issues), vec![0, 1, 2, 3, 4]);
}

#[test]
fn chunks_are_cut_from_the_fixed_lines() {
    let (ranges, chunks) = cut_chunks("a\nb\n\n", &[range(2, 3), range(3, 4), range(1, 1), range(3, 2)]);
    assert_eq!(ranges, vec![range(2, 3), range(1, 1)]);
    assert_eq!(chunks, vec!["b\n\n".to_string(), "a\n".to_string()]);
    let (ranges, chunks) = cut_chunks("a\nb\n", &[range(0, 0)]);
    assert_eq!(ranges, vec![range(0, 0)]);
    assert_eq!(chunks, vec!["a\n".to_string()]);
}

fn outcome(contents: &str, ranges: Vec<LineRange>, fixed: &str) -> FixOutcome {
    fix_outcome(&contents.to_string(), &FixScope::Lines(ranges), &vec![false, true], fixed.to_string())
}

fn written(outcome: FixOutcome) -> String {
    match outcome {
        FixOutcome::Write(text) => text,
        other => panic!("{other:?}"),
    }
}

#[test]
fn only_lines_of_the_ranges_are_taken_over() {
    let fixed = "ONE\nTWO\nTHREE\n";
    let text = written(outcome("one\ntwo\nthree\n", vec![range(2, 2)], fixed));
    assert_eq!(text, "one\nTWO\nthree\n");
    // In whatever order the ranges are given, and also where a line becomes empty.
    let text = written(outcome("1\n2\n3\n4\n", vec![range(4, 4), range(2, 2)], "a\nb\nc\n\n"));
    assert_eq!(text, "1\nb\n3\n\n");
}

#[test]
fn a_fix_inside_the_ranges_may_add_lines() {
    let fixed = "a\nb1\nb2\nc\n";
    assert_eq!(written(outcome("a\nb\nc\n", vec![range(2, 2)], fixed)), fixed);
    let fixed = "0\n1\n2\n2\n3\n4\n5\n";
    assert_eq!(written(outcome("1\n2\n3\n4\n", vec![range(4, 4), range(1, 2)], fixed)), fixed);
}

#[test]
fn a_fix_inside_the_ranges_may_remove_lines() {
    let fixed = "a\nd\n";
    assert_eq!(written(outcome("a\nb\nc\nd\n", vec![range(2, 3)], fixed)), fixed);
    let fixed = "x\nx\n";
    assert_eq!(written(outcome("x\nx\nx\n", vec![range(2, 2)], fixed)), fixed);
    assert_eq!(written(outcome("a\n", vec![range(1, 1)], "")), "");
}

#[test]
fn a_fix_inside_the_ranges_keeps_line_ends() {
    let fixed = "a\r\nB\r\nc\r\n";
    assert_eq!(written(outcome("a\r\nb\r\nc\r\n", vec![range(2, 2)], fixed)), fixed);
}

#[test]
fn lines_that_cannot_be_told_apart_are_left() {
    // A line outside the range changed too, and the number of lines is another.
    assert!(matches!(outcome("a\nb\nc\n", vec![range(2, 2)], "A\nb1\nb2\nc\n"), FixOutcome::Unclear));
}

#[test]
fn the_newline_at_the_end_stays() {
    assert_eq!(written(outcome("a\nb\n", vec![range(1, 1)], "x\nb")), "x\nb\n");
    assert_eq!(written(outcome("a\nb", vec![range(1, 1)], "x\ny\nb\n")), "x\ny\nb");
    assert!(matches!(outcome("a\nb\n", vec![range(1, 1)], "a\nb"), FixOutcome::Skip));
    // It belongs to the last line, which may be fixed.
    assert_eq!(written(outcome("a\nb", vec![range(2, 2)], "a\nb\n")), "a\nb\n");
}

#[test]
fn overlapping_ranges_are_taken_by_their_numbers() {
    let text = written(outcome("1\n2\n3\n4\n", vec![range(1, 2), range(2, 3)], "a\nb\nc\nd\n"));
    assert_eq!(text, "a\nb\nc\n4\n");
}

#[test]
fn nothing_is_written_without_a_change() {
    let contents = "one\ntwo\n".to_string();
    let fixed = "ONE\ntwo\n";
    let lines = |start, end| FixScope::Lines(vec![range(start, end)]);
    let skips = |scope: FixScope, applied: Vec<bool>, fixed: &str| {
        matches!(fix_outcome(&contents, &scope, &applied, fixed.to_string()), FixOutcome::Skip)
    };
    // No edit was applied.
    assert!(skips(lines(1, 1), vec![false, false], fixed));
    assert!(skips(lines(1, 1), vec![], fixed));
    assert!(skips(FixScope::WholeFile, vec![false], fixed));
    // The edits change nothing.
    assert!(skips(lines(1, 1), vec![true], &contents));
    assert!(skips(FixScope::WholeFile, vec![true], &contents));
    // The change is in other lines.
    assert!(skips(lines(2, 2), vec![true], fixed));
    // There are no lines to take.
    assert!(skips(lines(3, 9), vec![true], fixed));
    assert!(skips(FixScope::Lines(vec![]), vec![true], fixed));
}

#[test]
fn whole_files_take_the_fixed_content() {
    let fixed = "new\r\ntext".to_string();
    let outcome = fix_outcome(&"old\n".to_string(), &FixScope::WholeFile, &vec![true], fixed);
    assert_eq!(written(outcome), "new\r\ntext");
}

#[test]
fn lines_that_cannot_be_merged_are_refused() {
    match outcome("one\ntwo\n", vec![range(0, 1)], "ONE\nTWO\n") {
        FixOutcome::Refused(e) => assert_eq!(e, MergeError::LineNotFound { line: 0 }),
        other => panic!("{other:?}"),
    }
}

#[test]
fn files_of_a_commit_are_kept_by_their_extension() {
    let files = vec![
        commit_file(&["a.php"], Some("php"), ChangeType::Added),
        commit_file(&["b.txt"], Some("txt"), ChangeType::Added),
        commit_file(&["c"], None, ChangeType::Modified),
        commit_file(&["d.PHP"], Some("PHP"), ChangeType::Modified),
        commit_file(&["e.inc"], Some("inc"), ChangeType::Modified),
    ];
    let extensions = vec!["php".to_string(), "inc".to_string()];
    let kept = source_files(&files, &extensions);
    assert_eq!(kept, vec![0, 4]);
    assert_eq!(changes_of(&files, &kept), vec![ChangeType::Added, ChangeType::Modified]);
    assert_eq!(source_files(&files, &Vec::new()), Vec::<usize>::new());
}

#[test]
fn a_change_is_found_by_its_path() {
    let files = vec![
        commit_file(&["src", "a.php"], Some("php"), ChangeType::Modified),
        commit_file(&["src", "b.php"], Some("php"), ChangeType::Added),
        commit_file(&["src", "b.php"], Some("php"), ChangeType::Modified),
    ];
    assert_eq!(change_of(&files, &vec![0, 1, 2], &key(&["src", "b.php"])), ChangeType::Added);
    assert_eq!(change_of(&files, &vec![0, 2], &key(&["src", "b.php"])), ChangeType::Modified);
    assert_eq!(change_of(&files, &vec![0, 1], &key(&["b.php"])), ChangeType::Modified);
}

#[test]
fn verdicts_are_counted() {
    let verdicts = vec![
        FileVerdict::Changed,
        FileVerdict::Skipped,
        FileVerdict::Left,
        FileVerdict::Changed,
        FileVerdict::Skipped,
        FileVerdict::Skipped,
    ];
    assert_eq!(changed_files(&verdicts), vec![0, 3]);
    assert_eq!(skipped_files(&verdicts), 3);
}
