//! The summary of a project's graph: the counts the store reports, the
//! functions counted by the strategy that extracted them, and the memory
//! estimate shown beside them.

use vstd::prelude::*;
use crate::digest::{decimal_of_i64, signed_decimal};
use crate::paths::{normalize_path, normalized, slashes};
use crate::text::{chars_of, push_all, push_char, push_str, str_eq, string_of};

verus! {

broadcast use vstd::string::group_string_axioms;

/// What the graph of a project holds.
#[derive(Debug, Clone)]
pub struct GraphSummary {
    pub file_count: i64,
    pub function_count: i64,
    pub engram_count: i64,
    pub native_ast_function_count: i64,
    pub extension_wasm_function_count: i64,
    pub text_heuristic_function_count: i64,
    pub vertex_count: i64,
    pub edge_count: i64,
    pub memory_usage: String,
    pub lessons_without_embedding: i64,
}

/// The counts the store reports for a project (or part of it).
#[derive(Debug, Clone, Copy)]
pub struct StoreCounts {
    pub file_count: i64,
    pub function_count: i64,
    pub engram_count: i64,
    pub edge_count: i64,
    pub lessons_without_embedding: i64,
}

/// Which total a strategy's functions count towards: 0 for `NativeAST`, 1
/// for `ExtensionWASM`, 2 for any other (text heuristics).
pub open spec fn strategy_bucket(strategy: Seq<char>) -> int {
    if strategy == "NativeAST"@ {
        0
    } else if strategy == "ExtensionWASM"@ {
        1
    } else {
        2
    }
}

/// The functions of `rows` (strategy, count) that count towards `bucket`.
pub open spec fn bucket_total(rows: Seq<(Seq<char>, i64)>, bucket: int) -> int
    decreases rows.len(),
{
    if rows.len() == 0 {
        0
    } else {
        bucket_total(rows.drop_last(), bucket) + if strategy_bucket(rows.last().0) == bucket {
            rows.last().1 as int
        } else {
            0
        }
    }
}

/// All functions of `rows` (strategy, count).
pub open spec fn all_total(rows: Seq<(Seq<char>, i64)>) -> int
    decreases rows.len(),
{
    if rows.len() == 0 {
        0
    } else {
        all_total(rows.drop_last()) + rows.last().1 as int
    }
}

/// Every function is counted in exactly one of the three strategy totals.
pub proof fn lemma_strategy_totals_add_up(rows: Seq<(Seq<char>, i64)>)
    ensures
        bucket_total(rows, 0) + bucket_total(rows, 1) + bucket_total(rows, 2) == all_total(rows),
    decreases rows.len(),
{
    if rows.len() > 0 {
        lemma_strategy_totals_add_up(rows.drop_last());
    }
}


/// The rows with the strategy taken by its view.
pub open spec fn rows_view(rows: Seq<(String, i64)>) -> Seq<(Seq<char>, i64)> {
    rows.map_values(|r: (String, i64)| (r.0@, r.1))
}

/// Every running total of every bucket stays within `i64`.
pub open spec fn totals_fit(rows: Seq<(Seq<char>, i64)>) -> bool {
    forall|k: int, b: int|
        0 <= k <= rows.len() && 0 <= b < 3 ==> i64::MIN <= #[trigger] bucket_total(rows.take(k), b)
            <= i64::MAX
}

/// `a / d` rounded towards zero, as integer division does.
pub open spec fn div_toward_zero(a: int, d: int) -> int {
    if a >= 0 {
        a / d
    } else {
        -((-a) / d)
    }
}

/// The memory estimate for `file_count` files: 200 bytes a file, in whole
/// mebibytes rounded down, plus one, followed by ` MB`.
pub open spec fn memory_usage_text(file_count: int) -> Seq<char> {
    signed_decimal(div_toward_zero(div_toward_zero(file_count * 200, 1024), 1024) + 1) + " MB"@
}

fn div_1024(a: i64) -> (r: i64)
    ensures
        r == div_toward_zero(a as int, 1024),
{
    if a >= 0 {
        a / 1024
    } else {
        let p: i64 = if a == i64::MIN {
            assert(-(i64::MIN as int) / 1024 == 9007199254740992);
            9007199254740992i64
        } else {
            (-a) / 1024
        };
        -p
    }
}

/// The memory estimate shown for `file_count` files.
pub fn memory_usage(file_count: i64) -> (r: String)
    requires
        i64::MIN <= file_count * 200 <= i64::MAX,
    ensures
        r@ == memory_usage_text(file_count as int),
{
    let scaled = file_count * 200;
    let kib = div_1024(scaled);
    let mib = div_1024(kib);
    proof {
        assert(-9007199254740992 <= kib <= 9007199254740991) by {
            assert(scaled <= i64::MAX);
        }
    }
    let digits = decimal_of_i64(mib + 1);
    let mut r = string_of(&digits);
    push_str(&mut r, " MB");
    r
}

/// Whether `graph_summary` can be computed without overflow: the memory
/// estimate's `file_count * 200` and every running strategy total fit in an
/// `i64`.
pub fn summary_fits(counts: &StoreCounts, strategies: &[(String, i64)]) -> (r: bool)
    ensures
        r == (i64::MIN <= counts.file_count * 200 <= i64::MAX && totals_fit(rows_view(strategies@))),
{
    if counts.file_count.checked_mul(200).is_none() {
        return false;
    }
    let ghost rows = rows_view(strategies@);
    let mut t: [i64; 3] = [0i64, 0i64, 0i64];
    let mut i: usize = 0;
    assert(rows.take(0) =~= Seq::<(Seq<char>, i64)>::empty());
    while i < strategies.len()
        invariant
            rows == rows_view(strategies@),
            i <= strategies@.len(),
            forall|b: int| 0 <= b < 3 ==> #[trigger] t@[b] == bucket_total(rows.take(i as int), b),
            forall|k: int, b: int|
                0 <= k <= i && 0 <= b < 3 ==> i64::MIN <= #[trigger] bucket_total(rows.take(k), b) <= i64::MAX,
        decreases strategies@.len() - i,
    {
        let (name, n) = (&strategies[i].0, strategies[i].1);
        let slot: usize = if str_eq(name.as_str(), "NativeAST") {
            0
        } else if str_eq(name.as_str(), "ExtensionWASM") {
            1
        } else {
            2
        };
        proof {
            assert(rows.take(i + 1).drop_last() =~= rows.take(i as int));
            assert(rows.take(i + 1).last() == (name@, n));
            assert(slot == strategy_bucket(name@));
            assert forall|b: int| 0 <= b < 3 && b != slot implies #[trigger] bucket_total(rows.take(i + 1), b)
                == bucket_total(rows.take(i as int), b) by {}
            assert(bucket_total(rows.take(i + 1), slot as int) == bucket_total(rows.take(i as int), slot as int) + n);
        }
        match t[slot].checked_add(n) {
            None => {
                proof {
                    assert(!(i64::MIN <= bucket_total(rows.take(i + 1), slot as int) <= i64::MAX));
                }
                return false;
            },
            Some(v) => {
                t.set(slot, v);
                proof {
                    assert forall|k: int, b: int|
                        0 <= k <= i + 1 && 0 <= b < 3 implies i64::MIN <= #[trigger] bucket_total(rows.take(k), b)
                        <= i64::MAX by {
                        if k == i + 1 && b != slot {
                            assert(bucket_total(rows.take(i + 1), b) == bucket_total(rows.take(i as int), b));
                        }
                    }
                }
            },
        }
        i += 1;
    }
    assert(rows.take(i as int) =~= rows);
    true
}

/// The summary of a project's graph from the store's counts and the
/// function counts per extraction strategy (`strategies`, one row per
/// strategy name): native and WASM-extension strategies have totals of their
/// own, every other strategy counts as text heuristics; the graph has one
/// vertex per file.
pub fn graph_summary(counts: StoreCounts, strategies: &[(String, i64)]) -> (r: GraphSummary)
    requires
        i64::MIN <= counts.file_count * 200 <= i64::MAX,
        totals_fit(rows_view(strategies@)),
    ensures
        r.file_count == counts.file_count,
        r.function_count == counts.function_count,
        r.engram_count == counts.engram_count,
        r.native_ast_function_count == bucket_total(rows_view(strategies@), 0),
        r.extension_wasm_function_count == bucket_total(rows_view(strategies@), 1),
        r.text_heuristic_function_count == bucket_total(rows_view(strategies@), 2),
        r.vertex_count == counts.file_count,
        r.edge_count == counts.edge_count,
        r.memory_usage@ == memory_usage_text(counts.file_count as int),
        r.lessons_without_embedding == counts.lessons_without_embedding,
{
    let ghost rows = rows_view(strategies@);
    let mut native: i64 = 0;
    let mut extension: i64 = 0;
    let mut text: i64 = 0;
    let mut i: usize = 0;
    assert(rows.take(0) =~= Seq::<(Seq<char>, i64)>::empty());
    while i < strategies.len()
        invariant
            rows == rows_view(strategies@),
            totals_fit(rows),
            i <= strategies@.len(),
            native == bucket_total(rows.take(i as int), 0),
            extension == bucket_total(rows.take(i as int), 1),
            text == bucket_total(rows.take(i as int), 2),
        decreases strategies@.len() - i,
    {
        let (name, n) = (&strategies[i].0, strategies[i].1);
        proof {
            assert(rows.take(i + 1).drop_last() =~= rows.take(i as int));
            assert(rows.take(i + 1).last() == (name@, n));
            assert(i64::MIN <= bucket_total(rows.take(i + 1), 0) <= i64::MAX);
            assert(i64::MIN <= bucket_total(rows.take(i + 1), 1) <= i64::MAX);
            assert(i64::MIN <= bucket_total(rows.take(i + 1), 2) <= i64::MAX);
        }
        if str_eq(name.as_str(), "NativeAST") {
            native = native + n;
        } else if str_eq(name.as_str(), "ExtensionWASM") {
            extension = extension + n;
        } else {
            text = text + n;
        }
        i += 1;
    }
    assert(rows.take(i as int) =~= rows);
    GraphSummary {
        file_count: counts.file_count,
        function_count: counts.function_count,
        engram_count: counts.engram_count,
        native_ast_function_count: native,
        extension_wasm_function_count: extension,
        text_heuristic_function_count: text,
        vertex_count: counts.file_count,
        edge_count: counts.edge_count,
        memory_usage: memory_usage(counts.file_count),
        lessons_without_embedding: counts.lessons_without_embedding,
    }
}

/// The two `LIKE` patterns a summary of the part of a project under
/// `subpath` matches stored paths with: the normalized subpath with `/`
/// separators, and with `\` separators, each between `%` wildcards.
pub open spec fn subpath_patterns(subpath: Seq<char>) -> (Seq<char>, Seq<char>) {
    let forward = slashes(normalized(subpath));
    let backward = forward.map_values(|c: char| if c == '/' { '\\' } else { c });
    (seq!['%'] + forward + seq!['%'], seq!['%'] + backward + seq!['%'])
}

/// The `LIKE` patterns for the summary of the part of a project under
/// `subpath`: first with `/`, then with `\` separators.
pub fn subpath_like_patterns(subpath: &str) -> (r: (String, String))
    ensures
        r.0@ == subpath_patterns(subpath@).0,
        r.1@ == subpath_patterns(subpath@).1,
{
    let norm = normalize_path(subpath);
    let v = chars_of(norm.as_str());
    let ghost forward = slashes(normalized(subpath@));
    let mut fwd: Vec<char> = Vec::new();
    let mut bwd: Vec<char> = Vec::new();
    let mut i: usize = 0;
    while i < v.len()
        invariant
            v@ == normalized(subpath@),
            forward == slashes(v@),
            i <= v@.len(),
            fwd@ == forward.take(i as int),
            bwd@ == forward.take(i as int).map_values(|c: char| if c == '/' { '\\' } else { c }),
        decreases v@.len() - i,
    {
        let c = if v[i] == '\\' {
            '/'
        } else {
            v[i]
        };
        fwd.push(c);
        bwd.push(
            if c == '/' {
                '\\'
            } else {
                c
            },
        );
        proof {
            assert(forward.take(i + 1) =~= forward.take(i as int).push(c));
            assert(forward.take(i + 1).map_values(|c: char| if c == '/' { '\\' } else { c })
                =~= forward.take(i as int).map_values(
                |c: char| if c == '/' { '\\' } else { c },
            ).push(if c == '/' { '\\' } else { c }));
        }
        i += 1;
    }
    assert(forward.take(i as int) =~= forward);
    proof {
        reveal_strlit("%");
    }
    let mut a = "%".to_owned();
    push_all(&mut a, &fwd);
    push_char(&mut a, '%');
    let mut b = "%".to_owned();
    push_all(&mut b, &bwd);
    push_char(&mut b, '%');
    assert(a@ =~= subpath_patterns(subpath@).0);
    assert(b@ =~= subpath_patterns(subpath@).1);
    (a, b)
}

} // verus!
