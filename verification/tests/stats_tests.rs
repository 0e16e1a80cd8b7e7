//! Change-statistics tests.

use commonplace_doc::stats::{compute_diff_stats, lines_of};

#[test]
fn test_lines_of_matches_std() {
    for text in [
        "",
        "one",
        "one\n",
        "one\ntwo",
        "one\r\ntwo\r\n",
        "a\n\nb",
        "trailing\r",
    ] {
        let expected: Vec<String> = text.lines().map(|l| l.to_string()).collect();
        assert_eq!(lines_of(text), expected, "for {:?}", text);
    }
}

#[test]
fn test_compute_diff_stats_exact() {
    let old = "a\nb\nc\n";
    let new = "a\nc\nd\ne\n";
    let s = compute_diff_stats(old, new);
    assert_eq!(s.lines_added, 2, "d and e are new");
    assert_eq!(s.lines_removed, 1, "b left");
    assert_eq!(s.chars_added, 2, "the text grew from 6 to 8 bytes");
    assert_eq!(s.chars_removed, 0);

    let shrunk = compute_diff_stats(new, old);
    assert_eq!(shrunk.chars_added, 0);
    assert_eq!(shrunk.chars_removed, 2);
}

#[test]
fn test_compute_diff_stats_counts_distinct_lines_once() {
    // line sets, not line multisets: a duplicated new line counts once
    let s = compute_diff_stats("x\n", "x\ny\ny\n");
    assert_eq!(s.lines_added, 1);
    assert_eq!(s.lines_removed, 0);
}

#[test]
fn test_compute_diff_stats_identical() {
    let s = compute_diff_stats("same\n", "same\n");
    assert_eq!(s.lines_added, 0);
    assert_eq!(s.lines_removed, 0);
    assert_eq!(s.chars_added, 0);
    assert_eq!(s.chars_removed, 0);
}
