//! Impact analysis: how a change to one file is judged to affect each file
//! that the dependency graph reaches from it.
//!
//! The walk is `DependencyGraph::reached_files` (breadth-first from the
//! changed file); the caller hands over each file it reaches, with its depth
//! and the functions and line range the index stores for it.

use vstd::prelude::*;
use crate::digest::{decimal_number, decimal_of_u64};
use crate::text::{chars_of, contains, lower_chars, lower_of, occurs_at, occurs_in, push_all, push_str};

verus! {

broadcast use vstd::string::group_string_axioms;

/// A file of the dependency graph.
#[derive(Debug, Clone)]
pub struct FileNode {
    pub path: String,
    pub language: String,
    pub strategy: String,
    pub function_count: i64,
    pub lesson_count: i64,
}

/// How one reached file is affected by the change.
#[derive(Debug, Clone)]
pub struct ImpactEntry {
    pub file_path: String,
    pub depth: u32,
    pub function_count: i64,
    pub lesson_count: i64,
    pub language: String,
    pub severity: String,
    pub functions: Vec<String>,
    pub start_line: i64,
    pub end_line: i64,
    pub reason: String,
    pub suggestion: String,
}

/// A file the walk reached: the file, how many edges away from the changed
/// file it is, whether it is the changed file itself, its first functions
/// (`name:line`) and the line range its functions span.
pub struct ImpactVisit {
    pub node: FileNode,
    pub depth: u32,
    pub is_start: bool,
    pub functions: Vec<String>,
    pub start_line: i64,
    pub end_line: i64,
}

/// A lower-cased path that names data contracts.
pub open spec fn names_contract(lower: Seq<char>) -> bool {
    ||| occurs_in(lower, "schema"@)
    ||| occurs_in(lower, "model"@)
    ||| occurs_in(lower, "dto"@)
    ||| occurs_in(lower, "entity"@)
    ||| occurs_in(lower, "interface"@)
    ||| occurs_in(lower, "type"@)
}

/// The severity of the change for a file: `breaking` for data-contract
/// files, `warning` for files with lessons, with more than 15 functions or
/// one edge away, `info` otherwise.
pub open spec fn impact_severity(path: Seq<char>, lessons: i64, functions: i64, depth: u32) -> Seq<
    char,
> {
    if names_contract(lower_of(path)) {
        "breaking"@
    } else if lessons > 0 || functions > 15 || depth <= 1 {
        "warning"@
    } else {
        "info"@
    }
}

/// Why the file got its severity.
pub open spec fn impact_reason(path: Seq<char>, lessons: i64, functions: i64, depth: u32) -> Seq<
    char,
> {
    if names_contract(lower_of(path)) {
        "Contains schema/model/dto/entity/interface/type definitions — changes here affect data contracts"@
    } else if lessons > 0 {
        "Has "@ + decimal_number(lessons as nat)
            + " known lesson(s) registered — previous issues found in this file"@
    } else if functions > 15 {
        "Large file ("@ + decimal_number(functions as nat)
            + " functions) — high risk of cascading changes"@
    } else if depth <= 1 {
        "Direct dependency at depth 1 — changes propagate immediately"@
    } else {
        "Indirect dependency — unlikely to require changes"@
    }
}

/// What to do about a file of the given severity.
pub open spec fn impact_suggestion(severity: Seq<char>) -> Seq<char> {
    if severity == "breaking"@ {
        "Review and update all imports, type definitions, and data contracts in dependent files"@
    } else if severity == "warning"@ {
        "Check for cascading changes in consuming code; verify tests still pass"@
    } else {
        "Monitor for indirect effects; no immediate action required"@
    }
}

/// Files that hold data contracts are breaking: a path whose lower-cased
/// text contains `schema`, `model`, `dto`, `entity`, `interface` or `type`
/// is judged `breaking`, whatever its lessons, size or depth, and only such
/// paths are. A file is judged `info` exactly when it holds none of those,
/// has no lessons, at most 15 functions, and lies more than one edge away.
pub proof fn lemma_contract_files_break(path: Seq<char>, lessons: i64, functions: i64, depth: u32)
    ensures
        (exists|i: int| 0 <= i && i + 6 <= lower_of(path).len() && #[trigger] lower_of(path).subrange(i, i + 6) == "schema"@) ==> impact_severity(path, lessons, functions, depth) == "breaking"@,
        (exists|i: int| 0 <= i && i + 5 <= lower_of(path).len() && #[trigger] lower_of(path).subrange(i, i + 5) == "model"@) ==> impact_severity(path, lessons, functions, depth) == "breaking"@,
        (exists|i: int| 0 <= i && i + 3 <= lower_of(path).len() && #[trigger] lower_of(path).subrange(i, i + 3) == "dto"@) ==> impact_severity(path, lessons, functions, depth) == "breaking"@,
        (exists|i: int| 0 <= i && i + 6 <= lower_of(path).len() && #[trigger] lower_of(path).subrange(i, i + 6) == "entity"@) ==> impact_severity(path, lessons, functions, depth) == "breaking"@,
        (exists|i: int| 0 <= i && i + 9 <= lower_of(path).len() && #[trigger] lower_of(path).subrange(i, i + 9) == "interface"@) ==> impact_severity(path, lessons, functions, depth) == "breaking"@,
        (exists|i: int| 0 <= i && i + 4 <= lower_of(path).len() && #[trigger] lower_of(path).subrange(i, i + 4) == "type"@) ==> impact_severity(path, lessons, functions, depth) == "breaking"@,
        impact_severity(path, lessons, functions, depth) == "breaking"@ ==> ((exists|i: int| 0 <= i && i + 6 <= lower_of(path).len() && #[trigger] lower_of(path).subrange(i, i + 6) == "schema"@) || (exists|i: int| 0 <= i && i + 5 <= lower_of(path).len() && #[trigger] lower_of(path).subrange(i, i + 5) == "model"@) || (exists|i: int| 0 <= i && i + 3 <= lower_of(path).len() && #[trigger] lower_of(path).subrange(i, i + 3) == "dto"@) || (exists|i: int| 0 <= i && i + 6 <= lower_of(path).len() && #[trigger] lower_of(path).subrange(i, i + 6) == "entity"@) || (exists|i: int| 0 <= i && i + 9 <= lower_of(path).len() && #[trigger] lower_of(path).subrange(i, i + 9) == "interface"@) || (exists|i: int| 0 <= i && i + 4 <= lower_of(path).len() && #[trigger] lower_of(path).subrange(i, i + 4) == "type"@)),
        impact_severity(path, lessons, functions, depth) == "info"@ <==> (!((exists|i: int| 0 <= i && i + 6 <= lower_of(path).len() && #[trigger] lower_of(path).subrange(i, i + 6) == "schema"@) || (exists|i: int| 0 <= i && i + 5 <= lower_of(path).len() && #[trigger] lower_of(path).subrange(i, i + 5) == "model"@) || (exists|i: int| 0 <= i && i + 3 <= lower_of(path).len() && #[trigger] lower_of(path).subrange(i, i + 3) == "dto"@) || (exists|i: int| 0 <= i && i + 6 <= lower_of(path).len() && #[trigger] lower_of(path).subrange(i, i + 6) == "entity"@) || (exists|i: int| 0 <= i && i + 9 <= lower_of(path).len() && #[trigger] lower_of(path).subrange(i, i + 9) == "interface"@) || (exists|i: int| 0 <= i && i + 4 <= lower_of(path).len() && #[trigger] lower_of(path).subrange(i, i + 4) == "type"@)) && lessons <= 0 && functions <= 15 && depth > 1),
        impact_severity(path, lessons, functions, depth) == "warning"@ <==> (!((exists|i: int| 0 <= i && i + 6 <= lower_of(path).len() && #[trigger] lower_of(path).subrange(i, i + 6) == "schema"@) || (exists|i: int| 0 <= i && i + 5 <= lower_of(path).len() && #[trigger] lower_of(path).subrange(i, i + 5) == "model"@) || (exists|i: int| 0 <= i && i + 3 <= lower_of(path).len() && #[trigger] lower_of(path).subrange(i, i + 3) == "dto"@) || (exists|i: int| 0 <= i && i + 6 <= lower_of(path).len() && #[trigger] lower_of(path).subrange(i, i + 6) == "entity"@) || (exists|i: int| 0 <= i && i + 9 <= lower_of(path).len() && #[trigger] lower_of(path).subrange(i, i + 9) == "interface"@) || (exists|i: int| 0 <= i && i + 4 <= lower_of(path).len() && #[trigger] lower_of(path).subrange(i, i + 4) == "type"@)) && (lessons > 0 || functions > 15 || depth <= 1)),
        impact_suggestion("breaking"@) == "Review and update all imports, type definitions, and data contracts in dependent files"@,
        impact_suggestion("warning"@) == "Check for cascading changes in consuming code; verify tests still pass"@,
        impact_suggestion("info"@) == "Monitor for indirect effects; no immediate action required"@,
{
    reveal_strlit("schema");
    reveal_strlit("model");
    reveal_strlit("dto");
    reveal_strlit("entity");
    reveal_strlit("interface");
    reveal_strlit("type");
    reveal_strlit("breaking");
    reveal_strlit("warning");
    reveal_strlit("info");
    assert("breaking"@[0] != "warning"@[0]);
    assert("breaking"@[0] != "info"@[0]);
    assert("warning"@[0] != "info"@[0]);
    if (exists|i: int| 0 <= i && i + 6 <= lower_of(path).len() && #[trigger] lower_of(path).subrange(i, i + 6) == "schema"@) {
        let i = choose|i: int| 0 <= i && i + 6 <= lower_of(path).len() && #[trigger] lower_of(path).subrange(i, i + 6) == "schema"@;
        assert(occurs_at(lower_of(path), "schema"@, i));
    }
    if occurs_in(lower_of(path), "schema"@) {
        let i = choose|i: int| occurs_at(lower_of(path), "schema"@, i);
        assert(lower_of(path).subrange(i, i + 6) == "schema"@);
    }
    if (exists|i: int| 0 <= i && i + 5 <= lower_of(path).len() && #[trigger] lower_of(path).subrange(i, i + 5) == "model"@) {
        let i = choose|i: int| 0 <= i && i + 5 <= lower_of(path).len() && #[trigger] lower_of(path).subrange(i, i + 5) == "model"@;
        assert(occurs_at(lower_of(path), "model"@, i));
    }
    if occurs_in(lower_of(path), "model"@) {
        let i = choose|i: int| occurs_at(lower_of(path), "model"@, i);
        assert(lower_of(path).subrange(i, i + 5) == "model"@);
    }
    if (exists|i: int| 0 <= i && i + 3 <= lower_of(path).len() && #[trigger] lower_of(path).subrange(i, i + 3) == "dto"@) {
        let i = choose|i: int| 0 <= i && i + 3 <= lower_of(path).len() && #[trigger] lower_of(path).subrange(i, i + 3) == "dto"@;
        assert(occurs_at(lower_of(path), "dto"@, i));
    }
    if occurs_in(lower_of(path), "dto"@) {
        let i = choose|i: int| occurs_at(lower_of(path), "dto"@, i);
        assert(lower_of(path).subrange(i, i + 3) == "dto"@);
    }
    if (exists|i: int| 0 <= i && i + 6 <= lower_of(path).len() && #[trigger] lower_of(path).subrange(i, i + 6) == "entity"@) {
        let i = choose|i: int| 0 <= i && i + 6 <= lower_of(path).len() && #[trigger] lower_of(path).subrange(i, i + 6) == "entity"@;
        assert(occurs_at(lower_of(path), "entity"@, i));
    }
    if occurs_in(lower_of(path), "entity"@) {
        let i = choose|i: int| occurs_at(lower_of(path), "entity"@, i);
        assert(lower_of(path).subrange(i, i + 6) == "entity"@);
    }
    if (exists|i: int| 0 <= i && i + 9 <= lower_of(path).len() && #[trigger] lower_of(path).subrange(i, i + 9) == "interface"@) {
        let i = choose|i: int| 0 <= i && i + 9 <= lower_of(path).len() && #[trigger] lower_of(path).subrange(i, i + 9) == "interface"@;
        assert(occurs_at(lower_of(path), "interface"@, i));
    }
    if occurs_in(lower_of(path), "interface"@) {
        let i = choose|i: int| occurs_at(lower_of(path), "interface"@, i);
        assert(lower_of(path).subrange(i, i + 9) == "interface"@);
    }
    if (exists|i: int| 0 <= i && i + 4 <= lower_of(path).len() && #[trigger] lower_of(path).subrange(i, i + 4) == "type"@) {
        let i = choose|i: int| 0 <= i && i + 4 <= lower_of(path).len() && #[trigger] lower_of(path).subrange(i, i + 4) == "type"@;
        assert(occurs_at(lower_of(path), "type"@, i));
    }
    if occurs_in(lower_of(path), "type"@) {
        let i = choose|i: int| occurs_at(lower_of(path), "type"@, i);
        assert(lower_of(path).subrange(i, i + 4) == "type"@);
    }
}

/// Whether the lower-cased path names data contracts.
fn contract_path(lower: &Vec<char>) -> (r: bool)
    ensures
        r == names_contract(lower@),
{
    contains(lower, &chars_of("schema")) || contains(lower, &chars_of("model")) || contains(
        lower,
        &chars_of("dto"),
    ) || contains(lower, &chars_of("entity")) || contains(lower, &chars_of("interface"))
        || contains(lower, &chars_of("type"))
}

/// `text`, the decimal digits of `n` (positive), then `tail`.
fn with_count(text: &str, n: i64, tail: &str) -> (r: String)
    requires
        n > 0,
    ensures
        r@ == text@ + decimal_number(n as nat) + tail@,
{
    let mut r = text.to_owned();
    let digits = decimal_of_u64(n as u64);
    push_all(&mut r, &digits);
    push_str(&mut r, tail);
    r
}

/// The severity, reason and suggestion for a file at `depth` edges from the
/// changed file.
pub fn judge_impact(path: &str, lesson_count: i64, function_count: i64, depth: u32) -> (r: (
    String,
    String,
    String,
))
    ensures
        r.0@ == impact_severity(path@, lesson_count, function_count, depth),
        r.1@ == impact_reason(path@, lesson_count, function_count, depth),
        r.2@ == impact_suggestion(r.0@),
{
    let lower = lower_chars(&chars_of(path));
    let (severity, reason) = if contract_path(&lower) {
        (
            "breaking".to_owned(),
            "Contains schema/model/dto/entity/interface/type definitions — changes here affect data contracts".to_owned(),
        )
    } else if lesson_count > 0 {
        (
            "warning".to_owned(),
            with_count(
                "Has ",
                lesson_count,
                " known lesson(s) registered — previous issues found in this file",
            ),
        )
    } else if function_count > 15 {
        (
            "warning".to_owned(),
            with_count("Large file (", function_count, " functions) — high risk of cascading changes"),
        )
    } else if depth <= 1 {
        (
            "warning".to_owned(),
            "Direct dependency at depth 1 — changes propagate immediately".to_owned(),
        )
    } else {
        ("info".to_owned(), "Indirect dependency — unlikely to require changes".to_owned())
    };
    proof {
        reveal_strlit("breaking");
        reveal_strlit("warning");
        reveal_strlit("info");
    }
    let suggestion = if names_match(&severity, "breaking") {
        "Review and update all imports, type definitions, and data contracts in dependent files".to_owned()
    } else if names_match(&severity, "warning") {
        "Check for cascading changes in consuming code; verify tests still pass".to_owned()
    } else {
        "Monitor for indirect effects; no immediate action required".to_owned()
    };
    (severity, reason, suggestion)
}

/// Character-wise equality of a string and a literal.
fn names_match(s: &String, lit: &str) -> (r: bool)
    ensures
        r == (s@ == lit@),
{
    crate::text::str_eq(s.as_str(), lit)
}

/// A copy of each string.
pub(crate) fn copy_strings(v: &Vec<String>) -> (r: Vec<String>)
    ensures
        r@.len() == v@.len(),
        forall|i: int| 0 <= i < v@.len() ==> #[trigger] r@[i]@ == v@[i]@,
{
    let mut r: Vec<String> = Vec::new();
    let mut i: usize = 0;
    while i < v.len()
        invariant
            i <= v@.len(),
            r@.len() == i,
            forall|j: int| 0 <= j < i ==> #[trigger] r@[j]@ == v@[j]@,
        decreases v@.len() - i,
    {
        r.push(v[i].clone());
        i += 1;
    }
    r
}

/// The entry for one reached file: its path, depth, counts and language as
/// the graph holds them, its functions and line range, and the judgement.
pub open spec fn entry_matches(e: ImpactEntry, v: ImpactVisit) -> bool {
    &&& e.file_path@ == v.node.path@
    &&& e.depth == v.depth
    &&& e.function_count == v.node.function_count
    &&& e.lesson_count == v.node.lesson_count
    &&& e.language@ == v.node.language@
    &&& e.severity@ == impact_severity(
        v.node.path@,
        v.node.lesson_count,
        v.node.function_count,
        v.depth,
    )
    &&& e.reason@ == impact_reason(
        v.node.path@,
        v.node.lesson_count,
        v.node.function_count,
        v.depth,
    )
    &&& e.suggestion@ == impact_suggestion(e.severity@)
    &&& e.functions@.len() == v.functions@.len()
    &&& forall|i: int| 0 <= i < v.functions@.len() ==> #[trigger] e.functions@[i]@ == v.functions@[i]@
    &&& e.start_line == v.start_line
    &&& e.end_line == v.end_line
}

/// A reached file is reported when it is not the changed file and lies at
/// most `max_depth` edges away.
pub open spec fn reported(v: ImpactVisit, max_depth: u32) -> bool {
    !v.is_start && v.depth <= max_depth
}

/// The positions of the reported visits, in order.
pub open spec fn reported_at(visits: Seq<ImpactVisit>, max_depth: u32) -> Seq<int>
    decreases visits.len(),
{
    if visits.len() == 0 {
        Seq::empty()
    } else if reported(visits.last(), max_depth) {
        reported_at(visits.drop_last(), max_depth).push(visits.len() - 1)
    } else {
        reported_at(visits.drop_last(), max_depth)
    }
}

proof fn lemma_reported_at_bounds(visits: Seq<ImpactVisit>, max_depth: u32)
    ensures
        forall|k: int|
            0 <= k < reported_at(visits, max_depth).len() ==> 0 <= #[trigger] reported_at(
                visits,
                max_depth,
            )[k] < visits.len(),
    decreases visits.len(),
{
    if visits.len() > 0 {
        let rest = reported_at(visits.drop_last(), max_depth);
        lemma_reported_at_bounds(visits.drop_last(), max_depth);
        assert forall|k: int|
            0 <= k < reported_at(visits, max_depth).len() implies 0 <= #[trigger] reported_at(
            visits,
            max_depth,
        )[k] < visits.len() by {
            if k < rest.len() {
                assert(reported_at(visits, max_depth)[k] == rest[k]);
            }
        }
    }
}

/// The impact of a change, from the files a breadth-first walk of the
/// dependency graph reached (in walk order): one entry per reached file other
/// than the changed one and at most `max_depth` edges away, in walk order.
pub fn analyze_impact(visits: &Vec<ImpactVisit>, max_depth: u32) -> (r: Vec<ImpactEntry>)
    ensures
        r@.len() == reported_at(visits@, max_depth).len(),
        forall|k: int|
            0 <= k < r@.len() ==> entry_matches(
                #[trigger] r@[k],
                visits@[reported_at(visits@, max_depth)[k]],
            ),
{
    let mut r: Vec<ImpactEntry> = Vec::new();
    let mut i: usize = 0;
    while i < visits.len()
        invariant
            i <= visits@.len(),
            r@.len() == reported_at(visits@.take(i as int), max_depth).len(),
            forall|k: int|
                0 <= k < r@.len() ==> entry_matches(
                    #[trigger] r@[k],
                    visits@[reported_at(visits@.take(i as int), max_depth)[k]],
                ),
        decreases visits@.len() - i,
    {
        let ghost before = reported_at(visits@.take(i as int), max_depth);
        proof {
            assert(visits@.take(i + 1).drop_last() =~= visits@.take(i as int));
            assert(visits@.take(i + 1).last() == visits@[i as int]);
            lemma_reported_at_bounds(visits@.take(i as int), max_depth);
        }
        let v = &visits[i];
        if !v.is_start && v.depth <= max_depth {
            let (severity, reason, suggestion) = judge_impact(
                v.node.path.as_str(),
                v.node.lesson_count,
                v.node.function_count,
                v.depth,
            );
            let e = ImpactEntry {
                file_path: v.node.path.clone(),
                depth: v.depth,
                function_count: v.node.function_count,
                lesson_count: v.node.lesson_count,
                language: v.node.language.clone(),
                severity,
                functions: copy_strings(&v.functions),
                start_line: v.start_line,
                end_line: v.end_line,
                reason,
                suggestion,
            };
            r.push(e);
            proof {
                let after = reported_at(visits@.take(i + 1), max_depth);
                assert(after == before.push(i as int));
                assert forall|k: int| 0 <= k < r@.len() implies entry_matches(
                    #[trigger] r@[k],
                    visits@[after[k]],
                ) by {
                    if k < before.len() {
                        assert(after[k] == before[k]);
                    }
                }
            }
        }
        i += 1;
    }
    assert(visits@.take(i as int) =~= visits@);
    r
}

} // verus!
