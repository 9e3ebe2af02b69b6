//! Widening of ranges.
use mago_lines::expand::{expand_ranges_with_context, DEFAULT_CONTEXT_LINES};
use mago_lines::merge::LineRange;

fn range(start: usize, end: usize) -> LineRange {
    LineRange { start, end }
}

#[test]
fn no_ranges_expand_to_none() {
    assert_eq!(expand_ranges_with_context(&[], 10, 3), vec![]);
}

#[test]
fn the_default_context_is_five_lines() {
    assert_eq!(DEFAULT_CONTEXT_LINES, 5);
}

#[test]
fn a_range_grows_on_both_sides() {
    assert_eq!(expand_ranges_with_context(&[range(20, 22)], 100, 5), vec![range(15, 27)]);
}

#[test]
fn a_range_stays_in_the_file() {
    assert_eq!(expand_ranges_with_context(&[range(2, 3)], 6, 5), vec![range(1, 6)]);
    assert_eq!(expand_ranges_with_context(&[range(0, 0)], 6, 0), vec![range(1, 0)]);
}

#[test]
fn ranges_within_five_lines_are_joined() {
    assert_eq!(
        expand_ranges_with_context(&[range(10, 10), range(15, 15)], 100, 0),
        vec![range(10, 15)]
    );
    assert_eq!(
        expand_ranges_with_context(&[range(10, 10), range(16, 16)], 100, 0),
        vec![range(10, 10), range(16, 16)]
    );
}

#[test]
fn ranges_come_out_by_their_start() {
    assert_eq!(
        expand_ranges_with_context(&[range(50, 51), range(10, 12), range(30, 30)], 100, 1),
        vec![range(9, 13), range(29, 31), range(49, 52)]
    );
}

#[test]
fn a_range_inside_another_disappears() {
    assert_eq!(
        expand_ranges_with_context(&[range(10, 40), range(20, 21)], 100, 2),
        vec![range(8, 42)]
    );
}

#[test]
fn expanding_again_without_context_changes_nothing() {
    let once = expand_ranges_with_context(&[range(50, 51), range(10, 12), range(14, 30)], 60, 3);
    assert_eq!(once, vec![range(7, 33), range(47, 54)]);
    assert_eq!(expand_ranges_with_context(&once, 60, 0), once);
}

#[test]
fn the_order_of_ranges_does_not_matter() {
    let ranges = [range(9, 9), range(2, 3), range(9, 30), range(60, 61), range(1, 1)];
    let expected = vec![range(1, 32), range(58, 63)];
    assert_eq!(expand_ranges_with_context(&ranges, 70, 2), expected);
    let other = [range(60, 61), range(9, 30), range(1, 1), range(9, 9), range(2, 3)];
    assert_eq!(expand_ranges_with_context(&other, 70, 2), expected);
}
