//! Stored lessons: how one is shown, and which ones a scan marks stale.

use vstd::prelude::*;
use crate::text::{push_str, str_eq};

verus! {

broadcast use vstd::string::group_string_axioms;

/// The tag shown after a lesson's kind: empty for a live lesson, else its
/// stale reason (`unknown` when none was recorded).
pub open spec fn stale_tag(stale: i64, reason: Option<Seq<char>>) -> Seq<char> {
    if stale != 0 {
        " [STALE: "@ + match reason {
            Some(r) => r,
            None => "unknown"@,
        } + "]"@
    } else {
        Seq::empty()
    }
}

/// How a lesson is printed: `[kind]` and its stale tag, its file and symbol,
/// then its context and solution on indented lines of their own.
pub open spec fn lesson_text(
    kind: Seq<char>,
    stale: i64,
    reason: Option<Seq<char>>,
    file_path: Seq<char>,
    symbol_name: Seq<char>,
    error_context: Seq<char>,
    solution: Seq<char>,
) -> Seq<char> {
    "["@ + kind + "]"@ + stale_tag(stale, reason) + " "@ + file_path + " :: "@ + symbol_name
        + "\n    context: "@ + error_context + "\n    solution: "@ + solution
}

/// The printed form of a stored lesson.
pub fn lesson_entry_text(
    kind: &str,
    stale: i64,
    stale_reason: Option<&str>,
    file_path: &str,
    symbol_name: &str,
    error_context: &str,
    solution: &str,
) -> (r: String)
    ensures
        r@ == lesson_text(
            kind@,
            stale,
            match stale_reason {
                Some(s) => Some(s@),
                None => None,
            },
            file_path@,
            symbol_name@,
            error_context@,
            solution@,
        ),
{
    let mut r = "[".to_owned();
    push_str(&mut r, kind);
    push_str(&mut r, "]");
    if stale != 0 {
        push_str(&mut r, " [STALE: ");
        match stale_reason {
            Some(s) => push_str(&mut r, s),
            None => push_str(&mut r, "unknown"),
        }
        push_str(&mut r, "]");
    }
    push_str(&mut r, " ");
    push_str(&mut r, file_path);
    push_str(&mut r, " :: ");
    push_str(&mut r, symbol_name);
    push_str(&mut r, "\n    context: ");
    push_str(&mut r, error_context);
    push_str(&mut r, "\n    solution: ");
    push_str(&mut r, solution);
    proof {
        let reason = match stale_reason {
            Some(s) => Some(s@),
            None => None,
        };
        assert(r@ =~= lesson_text(
            kind@,
            stale,
            reason,
            file_path@,
            symbol_name@,
            error_context@,
            solution@,
        ));
    }
    r
}

/// A lesson as the knowledge-base listing reads it.
#[derive(Debug, Clone)]
pub struct LessonRecord {
    pub file_path: String,
    pub error_type: String,
    pub solution: String,
    pub timestamp: String,
}

/// How the knowledge-base listing prints a lesson: the error and its file,
/// then the solution, then an empty line.
pub open spec fn record_text(r: LessonRecord) -> Seq<char> {
    "[Error: "@ + r.error_type@ + "] -> "@ + r.file_path@ + "\nSolution: "@ + r.solution@ + "\n\n"@
}

/// The printed form of a lesson in the knowledge-base listing.
pub fn lesson_record_text(r: &LessonRecord) -> (t: String)
    ensures
        t@ == record_text(*r),
{
    let mut t = "[Error: ".to_owned();
    push_str(&mut t, r.error_type.as_str());
    push_str(&mut t, "] -> ");
    push_str(&mut t, r.file_path.as_str());
    push_str(&mut t, "\nSolution: ");
    push_str(&mut t, r.solution.as_str());
    push_str(&mut t, "\n\n");
    assert(t@ =~= record_text(*r));
    t
}


/// Why a scan marks a lesson stale.
#[derive(Debug, Clone, Copy, PartialEq, Eq, Structural)]
pub enum StaleReason {
    /// The lesson's file is gone.
    FileDeleted,
    /// The file is there but no longer defines the lesson's symbol.
    SymbolRemoved,
}

impl StaleReason {
    /// The reason as it is stored.
    pub fn as_str(&self) -> (r: &'static str)
        ensures
            r@ == match self {
                StaleReason::FileDeleted => "file_deleted"@,
                StaleReason::SymbolRemoved => "symbol_removed"@,
            },
    {
        match self {
            StaleReason::FileDeleted => "file_deleted",
            StaleReason::SymbolRemoved => "symbol_removed",
        }
    }
}

/// What a scan found out about one live lesson of a scanned file.
#[derive(Debug, Clone)]
pub struct LessonProbe {
    pub id: i64,
    pub symbol_name: String,
    /// The lesson's file still exists.
    pub file_exists: bool,
    /// The store still holds a function of the lesson's name in that file.
    pub symbol_defined: bool,
}

/// The reason a lesson is marked stale, if it is: a missing file first;
/// else a named symbol the file no longer defines.
pub open spec fn stale_reason_of(p: LessonProbe) -> Option<StaleReason> {
    if !p.file_exists {
        Some(StaleReason::FileDeleted)
    } else if p.symbol_name@.len() > 0 && !p.symbol_defined {
        Some(StaleReason::SymbolRemoved)
    } else {
        None
    }
}

/// The marks of the probed lessons that are stale, in order.
pub open spec fn stale_marks_of(ps: Seq<LessonProbe>) -> Seq<(i64, StaleReason)>
    decreases ps.len(),
{
    if ps.len() == 0 {
        Seq::empty()
    } else {
        let rest = stale_marks_of(ps.drop_last());
        match stale_reason_of(ps.last()) {
            Some(r) => rest.push((ps.last().id, r)),
            None => rest,
        }
    }
}

/// The lessons a scan marks stale, each with its reason, in the order they
/// were probed; the number marked is the length.
pub fn stale_marks(probes: &[LessonProbe]) -> (r: Vec<(i64, StaleReason)>)
    ensures
        r@ == stale_marks_of(probes@),
{
    let mut r: Vec<(i64, StaleReason)> = Vec::new();
    let mut i: usize = 0;
    assert(probes@.take(0) =~= Seq::<LessonProbe>::empty());
    while i < probes.len()
        invariant
            i <= probes@.len(),
            r@ == stale_marks_of(probes@.take(i as int)),
        decreases probes@.len() - i,
    {
        let p = &probes[i];
        proof {
            assert(probes@.take(i + 1).drop_last() =~= probes@.take(i as int));
        }
        if !p.file_exists {
            r.push((p.id, StaleReason::FileDeleted));
        } else if !str_eq(p.symbol_name.as_str(), "") && !p.symbol_defined {
            proof {
                assert(p.symbol_name@.len() > 0) by {
                    reveal_strlit("");
                    if p.symbol_name@.len() == 0 {
                        assert(p.symbol_name@ =~= ""@);
                    }
                }
            }
            r.push((p.id, StaleReason::SymbolRemoved));
        } else {
            proof {
                if p.file_exists && !p.symbol_defined {
                    reveal_strlit("");
                    assert(p.symbol_name@ =~= ""@);
                }
            }
        }
        i += 1;
    }
    assert(probes@.take(i as int) =~= probes@);
    r
}

/// The position of the first `id` in `ids[i..]`, or 0 when it is not there.
pub open spec fn position_of(ids: Seq<i64>, id: i64, i: int) -> int
    decreases ids.len() - i,
{
    if i < 0 || i >= ids.len() {
        0
    } else if ids[i] == id {
        i
    } else {
        position_of(ids, id, i + 1)
    }
}

/// The part of a session's observations (`ids`, oldest first) shown around
/// the observation `id`: up to `before` before it and `after` after it (the
/// first ones when `id` is not among them).
pub open spec fn timeline_of(ids: Seq<i64>, id: i64, before: nat, after: nat) -> Seq<i64> {
    let pos = position_of(ids, id, 0);
    let start = if pos >= before { pos - before } else { 0 };
    let end = if pos + after + 1 <= ids.len() { pos + after + 1 } else { ids.len() as int };
    ids.subrange(start, end)
}

proof fn lemma_position_in_range(ids: Seq<i64>, id: i64, i: int)
    requires
        0 <= i,
    ensures
        0 <= position_of(ids, id, i),
        ids.len() > 0 ==> position_of(ids, id, i) < ids.len(),
    decreases ids.len() - i,
{
    if i < ids.len() && ids[i] != id {
        lemma_position_in_range(ids, id, i + 1);
    }
}

/// The observations of a session shown around one of them (see
/// `timeline_of`).
pub fn observation_window(ids: &[i64], id: i64, before: usize, after: usize) -> (r: Vec<i64>)
    requires
        position_of(ids@, id, 0) + after + 1 <= usize::MAX,
    ensures
        r@ == timeline_of(ids@, id, before as nat, after as nat),
{
    let mut pos: usize = 0;
    let mut found = false;
    let mut i: usize = 0;
    while i < ids.len() && !found
        invariant
            i <= ids@.len(),
            found ==> i < ids@.len() && pos == i && ids@[i as int] == id,
            !found ==> pos == 0,
            position_of(ids@, id, 0) == position_of(ids@, id, i as int),
        decreases ids@.len() - i + (if found { 0int } else { 1int }),
    {
        if ids[i] == id {
            pos = i;
            found = true;
        } else {
            i += 1;
        }
    }
    proof {
        lemma_position_in_range(ids@, id, 0);
    }
    assert(pos as int == position_of(ids@, id, 0));
    let start = if pos >= before {
        pos - before
    } else {
        0
    };
    let end = if pos + after + 1 <= ids.len() {
        pos + after + 1
    } else {
        ids.len()
    };
    let mut r: Vec<i64> = Vec::new();
    let mut k = start;
    while k < end
        invariant
            start <= k <= end <= ids@.len(),
            r@ == ids@.subrange(start as int, k as int),
        decreases end - k,
    {
        r.push(ids[k]);
        assert(ids@.subrange(start as int, k + 1) =~= ids@.subrange(start as int, k as int).push(ids@[k as int]));
        k += 1;
    }
    r
}

/// The most lessons a search returns: the number asked for brought into
/// `1..=100`. A number beyond `i64::MAX` becomes negative when converted
/// to the store's integer, and so counts as 1.
pub fn lesson_search_limit(limit: usize) -> (r: i64)
    ensures
        r == if limit == 0 {
            1
        } else if limit <= 100 {
            limit as int
        } else if limit <= i64::MAX {
            100
        } else {
            1
        },
{
    if limit == 0 {
        1
    } else if limit <= 100 {
        limit as i64
    } else if limit as u64 <= 9223372036854775807u64 {
        100
    } else {
        1
    }
}

/// The `LIKE` pattern a lesson search falls back to: the query between `%`
/// wildcards, when the full-text search found nothing for a non-empty
/// query; none otherwise.
pub fn lesson_like_fallback(query: &str, found_any: bool) -> (r: Option<String>)
    ensures
        match r {
            Some(p) => !found_any && query@.len() > 0 && p@ == seq!['%'] + query@ + seq!['%'],
            None => found_any || query@.len() == 0,
        },
{
    if found_any || query.unicode_len() == 0 {
        return None;
    }
    let mut p = String::new();
    proof {
        reveal_strlit("%");
    }
    push_str(&mut p, "%");
    push_str(&mut p, query);
    push_str(&mut p, "%");
    assert(p@ =~= seq!['%'] + query@ + seq!['%']);
    Some(p)
}

} // verus!
