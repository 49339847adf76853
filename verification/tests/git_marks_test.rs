use marko::git::{hunk_marks, status_label, GutterMark, HunkLine};

fn line(origin: char, new_lineno: Option<u32>) -> HunkLine {
    HunkLine { origin, new_lineno }
}

#[test]
fn added_lines_are_marked_added() {
    let lines = vec![line(' ', Some(3)), line('+', Some(4)), line('+', Some(5)), line(' ', Some(6))];
    assert_eq!(hunk_marks(&lines, 3), vec![(3, GutterMark::Added), (4, GutterMark::Added)]);
}

#[test]
fn added_lines_beside_removed_ones_are_marked_modified() {
    let lines = vec![line('-', None), line('+', Some(10)), line('-', None), line('+', Some(11))];
    assert_eq!(hunk_marks(&lines, 10), vec![(9, GutterMark::Modified), (10, GutterMark::Modified)]);
}

#[test]
fn a_pure_removal_marks_the_line_before_the_hunk() {
    let lines = vec![line(' ', Some(7)), line('-', None), line('-', None)];
    assert_eq!(hunk_marks(&lines, 7), vec![(6, GutterMark::Removed)]);
    assert_eq!(hunk_marks(&lines, 0), vec![(0, GutterMark::Removed)]);
}

#[test]
fn context_alone_gives_no_mark() {
    assert!(hunk_marks(&vec![line(' ', Some(1))], 1).is_empty());
    assert!(hunk_marks(&Vec::new(), 1).is_empty());
    assert!(hunk_marks(&vec![line('+', None)], 1).is_empty());
}

#[test]
fn status_labels() {
    assert_eq!(status_label(true, true, true), "staged");
    assert_eq!(status_label(false, true, true), "modified");
    assert_eq!(status_label(false, false, true), "untracked");
    assert_eq!(status_label(false, false, false), "");
}
