//! What the git backend reports of a repository: recent commits, diff
//! statistics, patches and blame, built from the values that the repository
//! walk reads.

use vstd::prelude::*;
use crate::digest::{decimal_of_i64, signed_decimal};
use crate::paths::{trim, trim_chars};
use crate::text::{chars_of, push_char, push_str, string_of};

verus! {

broadcast use vstd::string::group_string_axioms;

/// A commit, newest first in a listing.
#[derive(Debug, Clone)]
pub struct RecentChange {
    pub hash: String,
    pub author: String,
    pub message: String,
    pub timestamp: String,
    pub files: Vec<String>,
    pub is_merge: bool,
}

/// Statistics of a diff between two commits.
#[derive(Debug, Clone)]
pub struct DiffSummary {
    pub files_changed: usize,
    pub insertions: usize,
    pub deletions: usize,
    pub files: Vec<DiffFileEntry>,
}

/// One file of a diff.
#[derive(Debug, Clone)]
pub struct DiffFileEntry {
    pub path: String,
    pub status: String,
    pub insertions: usize,
    pub deletions: usize,
}

/// The commit that last changed a run of lines.
#[derive(Debug, Clone)]
pub struct BlameEntry {
    pub hash: String,
    pub author: String,
    pub timestamp: String,
    pub start_line: usize,
    pub end_line: usize,
}

/// The UTC date and time of a Unix timestamp as chrono writes it with
/// `%Y-%m-%d %H:%M:%S`; `None` when chrono has no date for it.
pub uninterp spec fn utc_text_of(secs: i64) -> Option<Seq<char>>;

/// chrono's `DateTime::from_timestamp(secs, 0)`, written with `format`
/// and `"%Y-%m-%d %H:%M:%S"`. The contract claims only that the result is
/// the one chrono gives for these seconds (`None` when they are out of its
/// range); the text itself is not stated.
#[verifier::external_body]
fn utc_timestamp_text(secs: i64) -> (r: Option<String>)
    ensures
        match r {
            Some(s) => utc_text_of(secs) == Some(s@),
            None => utc_text_of(secs) is None,
        },
{
    match chrono::DateTime::from_timestamp(secs, 0) {
        Some(dt) => Some(dt.format("%Y-%m-%d %H:%M:%S").to_string()),
        None => None,
    }
}

/// The text shown for a commit time: the UTC date and time when there is
/// one, else the seconds themselves.
pub open spec fn time_text(utc: Option<Seq<char>>, secs: i64) -> Seq<char> {
    match utc {
        Some(t) => t,
        None => signed_decimal(secs as int),
    }
}

/// The text shown for a commit time, given the UTC text found for it.
pub fn timestamp_or_seconds(utc: Option<String>, secs: i64) -> (r: String)
    ensures
        r@ == time_text(
            match utc {
                Some(t) => Some(t@),
                None => None,
            },
            secs,
        ),
{
    match utc {
        Some(t) => t,
        None => string_of(&decimal_of_i64(secs)),
    }
}

/// The text shown for the commit time `secs` (seconds since the Unix epoch).
pub fn format_timestamp(secs: i64) -> (r: String)
    ensures
        r@ == time_text(utc_text_of(secs), secs),
{
    let utc = utc_timestamp_text(secs);
    timestamp_or_seconds(utc, secs)
}

/// The author name shown: the commit's, else `unknown`.
pub open spec fn author_text(author: Option<&str>) -> Seq<char> {
    match author {
        Some(a) => a@,
        None => "unknown"@,
    }
}

fn author_or_unknown(author: Option<&str>) -> (r: String)
    ensures
        r@ == author_text(author),
{
    match author {
        Some(a) => a.to_owned(),
        None => "unknown".to_owned(),
    }
}

/// A commit of the recent-changes listing: its id, author (`unknown` when
/// not valid text), message (trimmed; empty when not valid text), time,
/// changed files, and whether it has more than one parent.
pub fn recent_change(
    hash: String,
    author: Option<&str>,
    message: Option<&str>,
    secs: i64,
    files: Vec<String>,
    parent_count: usize,
) -> (r: RecentChange)
    ensures
        r.hash@ == hash@,
        r.author@ == author_text(author),
        r.message@ == trim(
            match message {
                Some(m) => m@,
                None => Seq::empty(),
            },
        ),
        r.timestamp@ == time_text(utc_text_of(secs), secs),
        r.files@ == files@,
        r.is_merge == (parent_count > 1),
{
    let msg = match message {
        Some(m) => string_of(&trim_chars(&chars_of(m))),
        None => String::new(),
    };
    RecentChange {
        hash,
        author: author_or_unknown(author),
        message: msg,
        timestamp: format_timestamp(secs),
        files,
        is_merge: parent_count > 1,
    }
}

/// The lines of a blame hunk (first line `hunk_start`, `lines` lines) that
/// fall in the asked range (`start`, default 1, to `end`, default
/// unbounded); `None` when none do.
pub open spec fn blame_span_of(hunk_start: int, lines: int, start: Option<usize>, end: Option<usize>) -> Option<(int, int)> {
    let s = match start {
        Some(v) => v as int,
        None => 1,
    };
    let e = match end {
        Some(v) => v as int,
        None => usize::MAX as int,
    };
    let hunk_end = hunk_start + lines - 1;
    if hunk_end < s || hunk_start > e {
        None
    } else {
        Some((
            if hunk_start > s {
                hunk_start
            } else {
                s
            },
            if hunk_end < e {
                hunk_end
            } else {
                e
            },
        ))
    }
}

/// A blamed span lies in the asked range and runs forward: for a hunk of at
/// least one line and a range whose start (default 1) is not after its end
/// (default unbounded), a span found starts no earlier than the range, ends
/// no later, and does not end before it starts.
pub proof fn lemma_blame_span_in_range(hunk_start: int, lines: int, start: Option<usize>, end: Option<usize>)
    requires
        lines >= 1,
        (match start {
            Some(v) => v as int,
            None => 1,
        }) <= (match end {
            Some(v) => v as int,
            None => usize::MAX as int,
        }),
    ensures
        blame_span_of(hunk_start, lines, start, end) matches Some((a, b)) ==> (match start {
            Some(v) => v as int,
            None => 1,
        }) <= a <= b <= (match end {
            Some(v) => v as int,
            None => usize::MAX as int,
        }),
{
}

/// The part of a blame hunk that a range asks for.
pub fn blame_span(hunk_start: usize, lines: usize, start: Option<usize>, end: Option<usize>) -> (r:
    Option<(usize, usize)>)
    requires
        1 <= hunk_start + lines <= usize::MAX + 1,
    ensures
        match r {
            Some((a, b)) => blame_span_of(hunk_start as int, lines as int, start, end) == Some(
                (a as int, b as int),
            ),
            None => blame_span_of(hunk_start as int, lines as int, start, end) is None,
        },
{
    let s = match start {
        Some(v) => v,
        None => 1,
    };
    let e = match end {
        Some(v) => v,
        None => usize::MAX,
    };
    let hunk_end = if lines > 0 {
        hunk_start + (lines - 1)
    } else {
        hunk_start - 1
    };
    if hunk_end < s || hunk_start > e {
        None
    } else {
        Some((
            if hunk_start > s {
                hunk_start
            } else {
                s
            },
            if hunk_end < e {
                hunk_end
            } else {
                e
            },
        ))
    }
}

/// The blame entry of a commit for the lines `start_line..=end_line`.
pub fn blame_entry(hash: String, author: Option<&str>, secs: i64, start_line: usize, end_line: usize) -> (r: BlameEntry)
    ensures
        r.hash@ == hash@,
        r.author@ == author_text(author),
        r.timestamp@ == time_text(utc_text_of(secs), secs),
        r.start_line == start_line,
        r.end_line == end_line,
{
    BlameEntry {
        hash,
        author: author_or_unknown(author),
        timestamp: format_timestamp(secs),
        start_line,
        end_line,
    }
}

/// The kind of change a diff records for a file.
#[derive(Clone, Copy, PartialEq, Eq, Structural)]
pub enum DiffStatus {
    Added,
    Deleted,
    Modified,
    Renamed,
    Copied,
    Other,
}

/// The label of a kind of change.
pub open spec fn status_label(s: DiffStatus) -> Seq<char> {
    match s {
        DiffStatus::Added => "added"@,
        DiffStatus::Deleted => "deleted"@,
        DiffStatus::Modified => "modified"@,
        DiffStatus::Renamed => "renamed"@,
        DiffStatus::Copied => "copied"@,
        DiffStatus::Other => "unknown"@,
    }
}

/// The path a diff reports for a file: its new path, else its old one.
pub open spec fn delta_path(new_path: Option<Seq<char>>, old_path: Option<Seq<char>>) -> Seq<char> {
    match new_path {
        Some(p) => p,
        None => match old_path {
            Some(p) => p,
            None => Seq::empty(),
        },
    }
}

/// The text of an optional string.
pub open spec fn opt_view(o: Option<String>) -> Option<Seq<char>> {
    match o {
        Some(s) => Some(s@),
        None => None,
    }
}

fn choose_path(new_path: Option<String>, old_path: Option<String>) -> (r: String)
    ensures
        r@ == delta_path(opt_view(new_path), opt_view(old_path)),
{
    match new_path {
        Some(p) => p,
        None => match old_path {
            Some(p) => p,
            None => String::new(),
        },
    }
}

/// The entry of one file of a diff (line counts are not taken per file).
pub fn diff_file_entry(new_path: Option<String>, old_path: Option<String>, status: DiffStatus) -> (r:
    DiffFileEntry)
    ensures
        r.path@ == delta_path(opt_view(new_path), opt_view(old_path)),
        r.status@ == status_label(status),
        r.insertions == 0,
        r.deletions == 0,
{
    let label = match status {
        DiffStatus::Added => "added",
        DiffStatus::Deleted => "deleted",
        DiffStatus::Modified => "modified",
        DiffStatus::Renamed => "renamed",
        DiffStatus::Copied => "copied",
        DiffStatus::Other => "unknown",
    };
    DiffFileEntry {
        path: choose_path(new_path, old_path),
        status: label.to_owned(),
        insertions: 0,
        deletions: 0,
    }
}

/// The path a commit listing shows for a changed file; `None` when the diff
/// gives no path.
pub fn changed_path(new_path: Option<String>, old_path: Option<String>) -> (r: Option<String>)
    ensures
        match r {
            Some(p) => p@ == delta_path(opt_view(new_path), opt_view(old_path)) && p@.len() > 0,
            None => delta_path(opt_view(new_path), opt_view(old_path)).len() == 0,
        },
{
    let p = choose_path(new_path, old_path);
    if p.as_str().is_empty() {
        None
    } else {
        Some(p)
    }
}

/// The line of a patch: hunk and file headers, binary notes and bare line
/// ends are written as they are; other lines get their origin character
/// (`+`, `-`, ` `) in front.
pub open spec fn patch_line_text(origin: char, content: Seq<char>) -> Seq<char> {
    if origin == 'H' || origin == 'F' || origin == 'B' || origin == '\n' || origin == '\0' {
        content
    } else {
        seq![origin] + content
    }
}

/// The text a patch line adds to a printed diff.
pub fn patch_line(origin: char, content: &str) -> (r: String)
    ensures
        r@ == patch_line_text(origin, content@),
{
    if origin == 'H' || origin == 'F' || origin == 'B' || origin == '\n' || origin == '\0' {
        content.to_owned()
    } else {
        let mut r = String::new();
        push_char(&mut r, origin);
        push_str(&mut r, content);
        r
    }
}

/// The answer for a file that did not change between two refs.
pub fn no_changes_message(file_path: &str, from: &str, to: Option<&str>) -> (r: String)
    ensures
        r@ == "No changes for "@ + file_path@ + " between "@ + from@ + " and "@ + (match to {
            Some(t) => t@,
            None => "HEAD"@,
        }),
{
    let mut r = "No changes for ".to_owned();
    push_str(&mut r, file_path);
    push_str(&mut r, " between ");
    push_str(&mut r, from);
    push_str(&mut r, " and ");
    match to {
        Some(t) => push_str(&mut r, t),
        None => push_str(&mut r, "HEAD"),
    }
    r
}

} // verus!
