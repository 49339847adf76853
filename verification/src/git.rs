//! Gutter marks from the lines of a diff, and the label of a file's status.

use vstd::prelude::*;

verus! {

/// How a line of the file differs from the committed version.
#[derive(Clone, Copy, Debug, PartialEq, Eq, Structural)]
pub enum GutterMark {
    /// A new line.
    Added,
    /// A line that took the place of others.
    Modified,
    /// The place where lines were taken out.
    Removed,
}

/// A line of a hunk: its origin (`+`, `-` or context) and, where it is in
/// the new file, its number there, counted from 1.
#[derive(Clone, Copy, Debug, PartialEq, Eq, Structural)]
pub struct HunkLine {
    pub origin: char,
    pub new_lineno: Option<u32>,
}

/// The index of an added line, counted from 0.
pub open spec fn added_index(line: HunkLine) -> Option<int> {
    if line.origin == '+' && line.new_lineno.is_some() {
        Some(
            if line.new_lineno.unwrap() > 0 {
                line.new_lineno.unwrap() - 1
            } else {
                0
            },
        )
    } else {
        None
    }
}

/// The indices of the added lines among the first `k` lines of a hunk.
pub open spec fn added_upto(lines: Seq<HunkLine>, k: int) -> Seq<int>
    decreases k,
{
    if k <= 0 {
        Seq::empty()
    } else {
        added_upto(lines, k - 1) + match added_index(lines[k - 1]) {
            Some(i) => seq![i],
            None => Seq::empty(),
        }
    }
}

/// Whether one of the first `k` lines of a hunk is a removed line.
pub open spec fn removes_upto(lines: Seq<HunkLine>, k: int) -> bool
    decreases k,
{
    k > 0 && (removes_upto(lines, k - 1) || lines[k - 1].origin == '-')
}

/// The marks of a hunk that starts at line `new_start` of the new file: its
/// added lines, as modified where the hunk also removes lines; for a hunk
/// that only removes, the line before its start as the place of removal.
pub open spec fn hunk_marks_of(lines: Seq<HunkLine>, new_start: u32) -> Seq<(int, GutterMark)> {
    let added = added_upto(lines, lines.len() as int);
    let removes = removes_upto(lines, lines.len() as int);
    if added.len() > 0 {
        Seq::new(
            added.len(),
            |i: int|
                (
                    added[i],
                    if removes {
                        GutterMark::Modified
                    } else {
                        GutterMark::Added
                    },
                ),
        )
    } else if removes {
        seq![
            (
                if new_start > 0 {
                    new_start - 1
                } else {
                    0
                },
                GutterMark::Removed,
            ),
        ]
    } else {
        Seq::empty()
    }
}

/// The marks with their line indices as integers.
pub open spec fn mark_views(v: Seq<(usize, GutterMark)>) -> Seq<(int, GutterMark)> {
    Seq::new(v.len(), |i: int| (v[i].0 as int, v[i].1))
}

/// Computes the gutter marks of one hunk of a diff.
pub fn hunk_marks(lines: &Vec<HunkLine>, new_start: u32) -> (marks: Vec<(usize, GutterMark)>)
    ensures
        mark_views(marks@) == hunk_marks_of(lines@, new_start),
{
    let mut added: Vec<usize> = Vec::new();
    let mut removes = false;
    let mut k: usize = 0;
    while k < lines.len()
        invariant
            k <= lines.len(),
            removes == removes_upto(lines@, k as int),
            added@.len() == added_upto(lines@, k as int).len(),
            forall|i: int| 0 <= i < added@.len() ==> added@[i] as int == added_upto(
                lines@,
                k as int,
            )[i],
        decreases lines.len() - k,
    {
        let line = lines[k];
        if line.origin == '+' {
            if let Some(n) = line.new_lineno {
                added.push(
                    if n > 0 {
                        (n - 1) as usize
                    } else {
                        0
                    },
                );
            }
        } else if line.origin == '-' {
            removes = true;
        }
        k += 1;
    }
    let mut marks: Vec<(usize, GutterMark)> = Vec::new();
    if added.len() > 0 {
        let mark = if removes {
            GutterMark::Modified
        } else {
            GutterMark::Added
        };
        let mut i: usize = 0;
        while i < added.len()
            invariant
                i <= added.len(),
                marks@.len() == i,
                forall|j: int| 0 <= j < i ==> marks@[j] == (added@[j], mark),
            decreases added.len() - i,
        {
            marks.push((added[i], mark));
            i += 1;
        }
    } else if removes {
        marks.push(
            (
                if new_start > 0 {
                    (new_start - 1) as usize
                } else {
                    0
                },
                GutterMark::Removed,
            ),
        );
    }
    assert(mark_views(marks@) =~= hunk_marks_of(lines@, new_start));
    marks
}

/// The label for the status of a file: staged where the index differs
/// from the last commit, else modified or untracked as the working tree
/// says, else nothing.
pub fn status_label(index_changed: bool, worktree_modified: bool, worktree_new: bool) -> (label:
    &'static str)
    ensures
        label@ == if index_changed {
            "staged"@
        } else if worktree_modified {
            "modified"@
        } else if worktree_new {
            "untracked"@
        } else {
            ""@
        },
{
    if index_changed {
        "staged"
    } else if worktree_modified {
        "modified"
    } else if worktree_new {
        "untracked"
    } else {
        ""
    }
}

} // verus!
