//! The live watcher's decisions: which changed paths are re-indexed, which
//! removed ones are cleaned from the graph, and when the ignore patterns are
//! read again (and which indexed files they now rule out).

use vstd::prelude::*;
use crate::paths::{
    blocked_by_components, file_name, file_name_of, is_garbage_extension, is_ignored_by_patterns,
    is_ignored_spec, is_word, path_extension, should_process_delete, should_watch_path,
};
use crate::registry::names_of;
use crate::text::{chars_of, lower_of};

verus! {

broadcast use vstd::string::group_string_axioms;

/// What happened to the paths of a file-system event.
#[derive(Debug, Clone, Copy, PartialEq, Eq, Structural)]
pub enum WatchEventKind {
    Create,
    Modify,
    Remove,
    Other,
}

/// A path of an event, with what the file system and the content check say
/// of it.
#[derive(Debug, Clone)]
pub struct WatchedPath {
    pub path: String,
    pub is_file: bool,
    pub is_binary: bool,
}

/// What the watcher does for one path of an event (by its position among
/// the event's paths).
#[derive(Debug, Clone, Copy, PartialEq, Eq, Structural)]
pub enum WatchAction {
    /// Index the file again.
    Reindex(usize),
    /// Remove the file from the graph.
    Delete(usize),
}

/// The path names an ignore file (`.ozymemignore` or `.gitignore`).
pub open spec fn is_ignore_file(path: Seq<char>) -> bool {
    file_name(path) matches Some(n) && (n == ".ozymemignore"@ || n == ".gitignore"@)
}

fn ignore_file(path: &str) -> (r: bool)
    ensures
        r == is_ignore_file(path@),
{
    let v = chars_of(path);
    match file_name_of(&v) {
        Some(n) => is_word(&n, ".ozymemignore") || is_word(&n, ".gitignore"),
        None => false,
    }
}

/// Some path of the event is an ignore file, so the patterns are read again
/// (and the indexed files they now rule out are removed) before the event's
/// paths are handled.
pub fn touches_ignore_files(paths: &[WatchedPath]) -> (r: bool)
    ensures
        r == exists|i: int| 0 <= i < paths@.len() && is_ignore_file(#[trigger] paths@[i].path@),
{
    let mut i: usize = 0;
    while i < paths.len()
        invariant
            i <= paths@.len(),
            forall|j: int| 0 <= j < i ==> !is_ignore_file(#[trigger] paths@[j].path@),
        decreases paths@.len() - i,
    {
        if ignore_file(paths[i].path.as_str()) {
            return true;
        }
        i += 1;
    }
    false
}

/// A changed path is re-indexed: a file that no pattern ignores, not binary,
/// not a log or other garbage, and under no excluded or hidden folder.
pub open spec fn reindexed(p: WatchedPath, patterns: Seq<String>, root: Seq<char>) -> bool {
    !is_ignore_file(p.path@) && !is_ignored_spec(p.path@, patterns, root) && p.is_file && !p.is_binary
        && !(path_extension(p.path@) matches Some(e) && is_garbage_extension(lower_of(e)))
        && !blocked_by_components(p.path@)
}

/// A removed path is cleaned from the graph: no pattern ignores it, it was
/// not binary, not a log or other garbage, and under no excluded or hidden
/// folder.
pub open spec fn cleaned_up(p: WatchedPath, patterns: Seq<String>, root: Seq<char>) -> bool {
    !is_ignore_file(p.path@) && !is_ignored_spec(p.path@, patterns, root) && !p.is_binary
        && !(path_extension(p.path@) matches Some(e) && is_garbage_extension(lower_of(e)))
        && !blocked_by_components(p.path@)
}

/// The actions for the first `n` paths of an event of kind `kind`.
pub open spec fn actions_upto(
    kind: WatchEventKind,
    paths: Seq<WatchedPath>,
    patterns: Seq<String>,
    root: Seq<char>,
    n: int,
) -> Seq<WatchAction>
    decreases n,
{
    if n <= 0 {
        Seq::empty()
    } else {
        let rest = actions_upto(kind, paths, patterns, root, n - 1);
        let p = paths[n - 1];
        match kind {
            WatchEventKind::Create | WatchEventKind::Modify => if reindexed(p, patterns, root) {
                rest.push(WatchAction::Reindex((n - 1) as usize))
            } else {
                rest
            },
            WatchEventKind::Remove => if cleaned_up(p, patterns, root) {
                rest.push(WatchAction::Delete((n - 1) as usize))
            } else {
                rest
            },
            WatchEventKind::Other => rest,
        }
    }
}

/// What the watcher does with the paths of an event, in order: created or
/// modified files are re-indexed, removed ones cleaned from the graph (see
/// `reindexed` and `cleaned_up`); ignore files themselves are left alone.
/// `patterns` are the ignore patterns in force, `project_root` the root they
/// are relative to.
pub fn watch_actions(kind: WatchEventKind, paths: &[WatchedPath], patterns: &[String], project_root: &str) -> (r: Vec<
    WatchAction,
>)
    ensures
        r@ == actions_upto(kind, paths@, patterns@, project_root@, paths@.len() as int),
{
    let mut r: Vec<WatchAction> = Vec::new();
    let mut i: usize = 0;
    while i < paths.len()
        invariant
            i <= paths@.len(),
            r@ == actions_upto(kind, paths@, patterns@, project_root@, i as int),
        decreases paths@.len() - i,
    {
        let p = &paths[i];
        if !ignore_file(p.path.as_str()) {
            match kind {
                WatchEventKind::Create | WatchEventKind::Modify => {
                    if should_watch_path(p.path.as_str(), patterns, project_root, p.is_file, p.is_binary) {
                        r.push(WatchAction::Reindex(i));
                    }
                },
                WatchEventKind::Remove => {
                    if should_process_delete(p.path.as_str(), patterns, project_root, p.is_binary) {
                        r.push(WatchAction::Delete(i));
                    }
                },
                WatchEventKind::Other => {},
            }
        }
        i += 1;
    }
    r
}

/// The positions among the first `n` indexed files that the patterns now
/// rule out.
pub open spec fn purged_upto(files: Seq<Seq<char>>, patterns: Seq<String>, root: Seq<char>, n: int) -> Seq<usize>
    decreases n,
{
    if n <= 0 {
        Seq::empty()
    } else if is_ignored_spec(files[n - 1], patterns, root) {
        purged_upto(files, patterns, root, n - 1).push((n - 1) as usize)
    } else {
        purged_upto(files, patterns, root, n - 1)
    }
}

/// The indexed files (by position) that the ignore patterns read again now
/// rule out, and that are removed from the graph.
pub fn purged_files(indexed: &[String], patterns: &[String], project_root: &str) -> (r: Vec<usize>)
    ensures
        r@ == purged_upto(names_of(indexed@), patterns@, project_root@, indexed@.len() as int),
{
    let ghost files = names_of(indexed@);
    let mut r: Vec<usize> = Vec::new();
    let mut i: usize = 0;
    while i < indexed.len()
        invariant
            i <= indexed@.len(),
            files == names_of(indexed@),
            r@ == purged_upto(files, patterns@, project_root@, i as int),
        decreases indexed@.len() - i,
    {
        assert(files[i as int] == indexed@[i as int]@);
        if is_ignored_by_patterns(indexed[i].as_str(), patterns, project_root) {
            r.push(i);
        }
        i += 1;
    }
    r
}

} // verus!
