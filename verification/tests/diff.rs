//! Showing how two texts differ.

use nocompile::diff::{first_difference, same_lines, unified};

#[test]
fn one_changed_line_is_shown_among_its_neighbours() {
    let expected = "a\nb\nc\nd\ne\nf\ng\nh\ni\n";
    let actual = "a\nb\nc\nd\nX\nf\ng\nh\ni\n";
    assert_eq!(
        unified(expected, actual, "golden", "actual"),
        "--- golden\n+++ actual\n@@ -2,7 +2,7 @@\n b\n c\n d\n-e\n+X\n f\n g\n h\n"
    );
    assert_eq!(first_difference(expected, actual), Some(5));
    assert!(!same_lines(expected, actual));
}

#[test]
fn lines_added_at_the_end_are_shown() {
    assert_eq!(
        unified("a\n", "a\nb\nc\n", "l", "r"),
        "--- l\n+++ r\n@@ -1,1 +1,3 @@\n a\n+b\n+c\n"
    );
    assert_eq!(first_difference("a\n", "a\nb\n"), Some(2));
}

#[test]
fn an_empty_side_stands_before_the_first_line() {
    assert_eq!(
        unified("", "a\n", "l", "r"),
        "--- l\n+++ r\n@@ -0,0 +1,1 @@\n+a\n"
    );
    assert_eq!(
        unified("a\n", "", "l", "r"),
        "--- l\n+++ r\n@@ -1,1 +0,0 @@\n-a\n"
    );
}

/// What a line-based difference cannot show, it does not claim.
#[test]
fn texts_of_the_same_lines_have_no_hunk() {
    assert!(same_lines("a\nb", "a\r\nb\n"));
    assert_eq!(first_difference("a\nb", "a\r\nb\n"), None);
    assert_eq!(unified("a\nb", "a\nb\n", "l", "r"), "--- l\n+++ r\n");
}
