//! Merging of chunks into a file.
use mago_lines::merge::{merge_formatted_lines, replacements_fit, LineRange, MergeError};

fn range(start: usize, end: usize) -> LineRange {
    LineRange { start, end }
}

fn strings(list: &[&str]) -> Vec<String> {
    list.iter().map(|s| s.to_string()).collect()
}

#[test]
fn test_merge_single_line_change() {
    let original = "line1\nline2\nline3\n";
    let ranges = vec![LineRange { start: 2, end: 2 }];
    let chunks = vec!["formatted_line2\n".to_string()];

    let result = merge_formatted_lines(original, &ranges, chunks).unwrap();
    assert_eq!(result, "line1\nformatted_line2\nline3\n");
}

#[test]
fn test_merge_with_indentation_preservation() {
    let original = "class Test {\n    public function foo() {\n        return true;\n    }\n}\n";
    let ranges = vec![LineRange { start: 2, end: 4 }];
    // Chunk already has correct indentation from formatter
    let chunks = vec!["    public function foo() {\n        return true;\n    }".to_string()];

    let result = merge_formatted_lines(original, &ranges, chunks).unwrap();
    // The formatted chunk should be inserted as-is (formatter already set correct indent)
    assert!(result.contains("    public function foo()"));
    assert!(result.contains("        return true;"));
    assert_eq!(result, original);
}

#[test]
fn test_merge_multiple_ranges_reverse_order() {
    let original = "line1\nline2\nline3\nline4\nline5\n";
    let ranges = vec![LineRange { start: 2, end: 2 }, LineRange { start: 4, end: 4 }];
    let chunks = vec!["new_line2\n".to_string(), "new_line4\n".to_string()];

    let result = merge_formatted_lines(original, &ranges, chunks).unwrap();
    assert_eq!(result, "line1\nnew_line2\nline3\nnew_line4\nline5\n");
}

#[test]
fn test_merge_empty_input() {
    let original = "unchanged content\n";
    let ranges: Vec<LineRange> = vec![];
    let chunks: Vec<String> = vec![];

    let result = merge_formatted_lines(original, &ranges, chunks).unwrap();
    assert_eq!(result, original);
}

#[test]
fn test_merge_chunk_count_mismatch() {
    let original = "line1\nline2\n";
    let ranges = vec![LineRange { start: 1, end: 1 }];
    let chunks: Vec<String> = vec![];

    let result = merge_formatted_lines(original, &ranges, chunks);
    assert!(matches!(result, Err(MergeError::ChunkCountMismatch { expected: 1, got: 0 })));
}

#[test]
fn test_merge_invalid_range() {
    let original = "line1\nline2\n";
    let ranges = vec![LineRange { start: 5, end: 3 }]; // start > end
    let chunks = vec!["chunk\n".to_string()];

    let result = merge_formatted_lines(original, &ranges, chunks);
    assert!(matches!(result, Err(MergeError::InvalidRange { start: 5, end: 3 })));
}

#[test]
fn test_merge_line_not_found() {
    let original = "line1\nline2\n";
    let ranges = vec![LineRange { start: 1, end: 10 }]; // line 10 doesn't exist
    let chunks = vec!["chunk\n".to_string()];

    let result = merge_formatted_lines(original, &ranges, chunks);
    assert!(matches!(result, Err(MergeError::LineNotFound { line: 10 })));
}

#[test]
fn test_merge_multiline_range() {
    let original = "line1\nline2\nline3\nline4\nline5\n";
    let ranges = vec![LineRange { start: 2, end: 4 }];
    let chunks = vec!["new2\nnew3\nnew4\n".to_string()];

    let result = merge_formatted_lines(original, &ranges, chunks).unwrap();
    assert_eq!(result, "line1\nnew2\nnew3\nnew4\nline5\n");
}

#[test]
fn test_merge_preserves_trailing_newline() {
    let with_newline = "line1\nline2\n";
    let without_newline = "line1\nline2";

    let ranges = vec![LineRange { start: 1, end: 1 }];
    let chunks = vec!["new1\n".to_string()];

    let result = merge_formatted_lines(with_newline, &ranges, chunks.clone()).unwrap();
    assert!(result.ends_with('\n'));

    let result = merge_formatted_lines(without_newline, &ranges, chunks).unwrap();
    assert!(!result.ends_with('\n'));
}

#[test]
fn merge_takes_chunks_of_other_sizes() {
    let original = "1\n2\n3\n4\n";
    let ranges = [range(1, 1), range(3, 4)];
    let merged = merge_formatted_lines(original, &ranges, strings(&["a\nb\nc", "d"])).unwrap();
    assert_eq!(merged, "a\nb\nc\n2\nd\n");
    let merged = merge_formatted_lines(original, &ranges, strings(&["", ""])).unwrap();
    assert_eq!(merged, "2\n");
}

#[test]
fn merge_can_remove_all_lines() {
    let merged = merge_formatted_lines("1\n2\n", &[range(1, 2)], strings(&[""])).unwrap();
    assert_eq!(merged, "\n");
    let merged = merge_formatted_lines("1\n2", &[range(1, 2)], strings(&[""])).unwrap();
    assert_eq!(merged, "");
}

#[test]
fn merge_does_not_depend_on_the_order_of_ranges() {
    let original = "1\n2\n3\n4\n5\n";
    let ordered = merge_formatted_lines(
        original,
        &[range(1, 2), range(3, 3), range(5, 5)],
        strings(&["a", "b\nc", "d"]),
    );
    let shuffled = merge_formatted_lines(
        original,
        &[range(5, 5), range(1, 2), range(3, 3)],
        strings(&["d", "a", "b\nc"]),
    );
    assert_eq!(ordered.as_deref(), Ok("a\nb\nc\n4\nd\n"));
    assert_eq!(ordered, shuffled);
}

#[test]
fn merge_of_own_lines_changes_nothing() {
    let original = "one\n\ntwo\nthree";
    let ranges = [range(3, 4), range(1, 1)];
    let merged = merge_formatted_lines(original, &ranges, strings(&["two\nthree", "one"]));
    assert_eq!(merged.as_deref(), Ok(original));
}

#[test]
fn merge_ends_lines_with_a_plain_newline() {
    let merged = merge_formatted_lines("a\r\nb\r\nc\r\n", &[range(2, 2)], strings(&["x\r\ny"]));
    assert_eq!(merged.as_deref(), Ok("a\nx\ny\nc\n"));
}

#[test]
fn merge_refuses_line_zero() {
    let merged = merge_formatted_lines("a\nb\n", &[range(0, 1)], strings(&["x"]));
    assert_eq!(merged, Err(MergeError::LineNotFound { line: 0 }));
    let merged = merge_formatted_lines("a\nb\n", &[range(0, 0)], strings(&["x"]));
    assert_eq!(merged, Err(MergeError::LineNotFound { line: 0 }));
}

#[test]
fn merge_reports_the_gravest_fault() {
    let ranges = [range(0, 9), range(3, 2)];
    assert_eq!(
        merge_formatted_lines("a\n", &ranges, strings(&["x"])),
        Err(MergeError::ChunkCountMismatch { expected: 2, got: 1 })
    );
    assert_eq!(
        merge_formatted_lines("a\n", &ranges, strings(&["x", "y"])),
        Err(MergeError::InvalidRange { start: 3, end: 2 })
    );
    assert_eq!(
        merge_formatted_lines("a\n", &[range(0, 1), range(1, 7), range(1, 8)], strings(&["x", "y", "z"])),
        Err(MergeError::LineNotFound { line: 7 })
    );
}

#[test]
fn merge_of_an_empty_file_finds_no_lines() {
    assert_eq!(
        merge_formatted_lines("", &[range(1, 1)], strings(&["x"])),
        Err(MergeError::LineNotFound { line: 1 })
    );
}

#[test]
fn merge_without_ranges_takes_no_chunks() {
    assert_eq!(
        merge_formatted_lines("a\r\n", &[], strings(&["x", "y"])),
        Err(MergeError::ChunkCountMismatch { expected: 0, got: 2 })
    );
    assert_eq!(merge_formatted_lines("a\r\n", &[], Vec::new()).as_deref(), Ok("a\r\n"));
}

#[test]
fn merge_errors_have_a_message() {
    assert_eq!(
        MergeError::InvalidRange { start: 5, end: 3 }.to_string(),
        "Invalid line range: start (5) > end (3)"
    );
    assert_eq!(
        MergeError::ChunkCountMismatch { expected: 120, got: 0 }.to_string(),
        "Chunk count mismatch: expected 120 chunks, got 0"
    );
    assert_eq!(
        MergeError::LineNotFound { line: 10 }.to_string(),
        "Line 10 not found in original content"
    );
}

#[test]
fn disjoint_ranges_always_fit() {
    let chunks = strings(&["", "x"]);
    assert!(replacements_fit("1\n2\n3\n", &[range(1, 1), range(2, 3)], &chunks));
    // Refused before anything is replaced.
    assert!(replacements_fit("1\n", &[range(1, 9), range(1, 9)], &chunks));
}

#[test]
fn overlapping_ranges_may_not_fit() {
    let ranges = [range(1, 3), range(2, 3)];
    assert!(!replacements_fit("1\n2\n3\n", &ranges, &strings(&["a", ""])));
    let chunks = strings(&["a", "b\nc"]);
    assert!(replacements_fit("1\n2\n3\n", &ranges, &chunks));
    assert_eq!(merge_formatted_lines("1\n2\n3\n", &ranges, chunks).as_deref(), Ok("a\n"));
}

#[test]
fn a_merge_is_undone_by_the_old_lines() {
    let original = "1\n2\n3\n4\n";
    let merged = merge_formatted_lines(original, &[range(2, 3)], strings(&["a\nb\nc"])).unwrap();
    assert_eq!(merged, "1\na\nb\nc\n4\n");
    let undone = merge_formatted_lines(&merged, &[range(2, 4)], strings(&["2\n3"]));
    assert_eq!(undone.as_deref(), Ok(original));
}
