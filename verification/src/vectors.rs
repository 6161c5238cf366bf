//! The store of vector memories as the command line sees it: which memories
//! a listing or a search takes, and the most used ones.

use vstd::prelude::*;
use crate::text::{ascii_lower_chars, ascii_lower_seq, chars_of};
use crate::paths::chars_eq;

verus! {

broadcast use vstd::string::group_string_axioms;

/// What the tools read of a stored memory (its embedding is not among it).
#[derive(Debug, Clone)]
pub struct VectorRecord {
    pub id: String,
    pub text: String,
    pub source_path: String,
    pub category: String,
    pub project: String,
    pub schema_version: u32,
    pub hit_count: i64,
}

/// `a` and `b` are equal up to ASCII case.
pub open spec fn same_ignoring_case(a: Seq<char>, b: Seq<char>) -> bool {
    ascii_lower_seq(a) == ascii_lower_seq(b)
}

/// A filter that is absent, or equal to `field` up to ASCII case.
pub open spec fn passes(filter: Option<Seq<char>>, field: Seq<char>) -> bool {
    match filter {
        Some(f) => same_ignoring_case(field, f),
        None => true,
    }
}

/// The filter as text.
pub open spec fn filter_view(f: Option<&str>) -> Option<Seq<char>> {
    match f {
        Some(s) => Some(s@),
        None => None,
    }
}

fn ascii_key(s: &str) -> (r: Vec<char>)
    ensures
        r@ == ascii_lower_seq(s@),
{
    ascii_lower_chars(&chars_of(s))
}

fn passes_exec(filter: &Option<Vec<char>>, field: &str) -> (r: bool)
    ensures
        r == match filter {
            Some(f) => ascii_lower_seq(field@) == f@,
            None => true,
        },
{
    match filter {
        Some(f) => chars_eq(&ascii_key(field), f),
        None => true,
    }
}

fn filter_key(f: Option<&str>) -> (r: Option<Vec<char>>)
    ensures
        match f {
            Some(s) => r matches Some(k) && k@ == ascii_lower_seq(s@),
            None => r is None,
        },
{
    match f {
        Some(s) => Some(ascii_key(s)),
        None => None,
    }
}

/// The memories a listing shows: of the given project and category when
/// asked (ASCII case ignored).
pub open spec fn is_listed(r: VectorRecord, project: Option<Seq<char>>, category: Option<Seq<char>>) -> bool {
    passes(project, r.project@) && passes(category, r.category@)
}

/// The memories a similarity search compares: of the asked category (ASCII
/// case ignored) and of the current schema.
pub open spec fn is_searched(r: VectorRecord, category: Option<Seq<char>>) -> bool {
    passes(category, r.category@) && r.schema_version == 1
}

/// The positions among the first `n` records that satisfy `keep`.
pub open spec fn positions_upto(
    records: Seq<VectorRecord>,
    keep: spec_fn(VectorRecord) -> bool,
    n: int,
) -> Seq<usize>
    decreases n,
{
    if n <= 0 {
        Seq::empty()
    } else if keep(records[n - 1]) {
        positions_upto(records, keep, n - 1).push((n - 1) as usize)
    } else {
        positions_upto(records, keep, n - 1)
    }
}

/// The positions of the memories a listing shows, in store order.
pub fn listed_records(records: &[VectorRecord], project: Option<&str>, category: Option<&str>) -> (r: Vec<usize>)
    ensures
        r@ == positions_upto(
            records@,
            |v: VectorRecord| is_listed(v, filter_view(project), filter_view(category)),
            records@.len() as int,
        ),
{
    let pk = filter_key(project);
    let ck = filter_key(category);
    let ghost keep = |v: VectorRecord| is_listed(v, filter_view(project), filter_view(category));
    let mut r: Vec<usize> = Vec::new();
    let mut i: usize = 0;
    while i < records.len()
        invariant
            i <= records@.len(),
            keep == (|v: VectorRecord| is_listed(v, filter_view(project), filter_view(category))),
            match project {
                Some(s) => pk matches Some(k) && k@ == ascii_lower_seq(s@),
                None => pk is None,
            },
            match category {
                Some(s) => ck matches Some(k) && k@ == ascii_lower_seq(s@),
                None => ck is None,
            },
            r@ == positions_upto(records@, keep, i as int),
        decreases records@.len() - i,
    {
        let rec = &records[i];
        if passes_exec(&pk, rec.project.as_str()) && passes_exec(&ck, rec.category.as_str()) {
            r.push(i);
        }
        i += 1;
    }
    r
}

/// The positions of the memories a similarity search compares, in store
/// order.
pub fn searched_records(records: &[VectorRecord], category: Option<&str>) -> (r: Vec<usize>)
    ensures
        r@ == positions_upto(
            records@,
            |v: VectorRecord| is_searched(v, filter_view(category)),
            records@.len() as int,
        ),
{
    let ck = filter_key(category);
    let ghost keep = |v: VectorRecord| is_searched(v, filter_view(category));
    let mut r: Vec<usize> = Vec::new();
    let mut i: usize = 0;
    while i < records.len()
        invariant
            i <= records@.len(),
            keep == (|v: VectorRecord| is_searched(v, filter_view(category))),
            match category {
                Some(s) => ck matches Some(k) && k@ == ascii_lower_seq(s@),
                None => ck is None,
            },
            r@ == positions_upto(records@, keep, i as int),
        decreases records@.len() - i,
    {
        let rec = &records[i];
        if passes_exec(&ck, rec.category.as_str()) && rec.schema_version == 1 {
            r.push(i);
        }
        i += 1;
    }
    r
}

/// How many memories the ranking of the most used ones shows.
pub const TOP_COUNT: usize = 10usize;

/// Memory `a` ranks before memory `b` (both positions in `records`): more
/// hits first, and among equal hits the one stored first.
pub open spec fn ranks_before(records: Seq<VectorRecord>, a: usize, b: usize) -> bool {
    ||| records[a as int].hit_count > records[b as int].hit_count
    ||| (records[a as int].hit_count == records[b as int].hit_count && a < b)
}

/// Position `p` holds a memory of the project asked for (if any).
pub open spec fn in_project(records: Seq<VectorRecord>, project: Option<Seq<char>>, p: usize) -> bool {
    p < records.len() && passes(project, records[p as int].project@)
}

/// The most used memories of a project, in ranking order: `r` holds the
/// first `TOP_COUNT` (or all, when there are fewer) of them.
pub open spec fn is_top(records: Seq<VectorRecord>, project: Option<Seq<char>>, r: Seq<usize>) -> bool {
    &&& forall|i: int| 0 <= i < r.len() ==> in_project(records, project, #[trigger] r[i])
    &&& forall|i: int, j: int| 0 <= i < j < r.len() ==> ranks_before(records, #[trigger] r[i], #[trigger] r[j])
    &&& forall|p: usize, i: int|
        in_project(records, project, p) && 0 <= i < r.len() && !r.contains(p) ==> #[trigger] ranks_before(
            records,
            r[i],
            p,
        )
    &&& r.len() <= TOP_COUNT
    &&& (r.len() < TOP_COUNT ==> forall|p: usize| in_project(records, project, p) ==> #[trigger] r.contains(p))
}

/// `p` comes after `last` in the ranking (every position does when there
/// is no `last`).
pub open spec fn after(records: Seq<VectorRecord>, last: Option<usize>, p: usize) -> bool {
    match last {
        Some(l) => ranks_before(records, l, p),
        None => true,
    }
}

/// The position of the best-ranked memory of the project that ranks after
/// `last`, if there is one.
fn next_ranked(
    records: &[VectorRecord],
    pk: &Option<Vec<char>>,
    project: Ghost<Option<Seq<char>>>,
    last: Option<usize>,
) -> (r: Option<usize>)
    requires
        match project@ {
            Some(s) => pk matches Some(k) && k@ == ascii_lower_seq(s),
            None => pk is None,
        },
        last matches Some(l) ==> l < records@.len(),
    ensures
        match r {
            Some(b) => {
                &&& in_project(records@, project@, b)
                &&& after(records@, last, b)
                &&& forall|p: usize|
                    in_project(records@, project@, p) && p != b && after(records@, last, p)
                        ==> #[trigger] ranks_before(records@, b, p)
            },
            None => forall|p: usize| in_project(records@, project@, p) ==> !#[trigger] after(records@, last, p),
        },
{
    let mut best: Option<usize> = None;
    let mut i: usize = 0;
    while i < records.len()
        invariant
            i <= records@.len(),
            match project@ {
                Some(s) => pk matches Some(k) && k@ == ascii_lower_seq(s),
                None => pk is None,
            },
            last matches Some(l) ==> l < records@.len(),
            match best {
                Some(b) => {
                    &&& b < i
                    &&& in_project(records@, project@, b)
                    &&& after(records@, last, b)
                    &&& forall|p: usize|
                        p < i && in_project(records@, project@, p) && p != b && after(records@, last, p)
                            ==> #[trigger] ranks_before(records@, b, p)
                },
                None => forall|p: usize| p < i && in_project(records@, project@, p) ==> !#[trigger] after(records@, last, p),
            },
        decreases records@.len() - i,
    {
        let rec = &records[i];
        if passes_exec(pk, rec.project.as_str()) {
            let is_after = match last {
                Some(l) => records[l].hit_count > rec.hit_count || (records[l].hit_count == rec.hit_count && l < i),
                None => true,
            };
            if is_after {
                match best {
                    None => {
                        best = Some(i);
                    },
                    Some(b) => {
                        if rec.hit_count > records[b].hit_count {
                            proof {
                                assert forall|p: usize|
                                    p < i + 1 && in_project(records@, project@, p) && p != i && after(records@, last, p)
                                        implies #[trigger] ranks_before(records@, i, p) by {
                                    if p != b {
                                        assert(ranks_before(records@, b, p));
                                    }
                                }
                            }
                            best = Some(i);
                        }
                    },
                }
            }
        }
        i += 1;
    }
    best
}

/// The most used memories (of `project`, ASCII case ignored, when given):
/// their positions, most hits first and, among equal hits, in store order;
/// at most `TOP_COUNT` of them.
pub fn top_records(records: &[VectorRecord], project: Option<&str>) -> (r: Vec<usize>)
    ensures
        is_top(records@, filter_view(project), r@),
{
    let pk = filter_key(project);
    let ghost pv = filter_view(project);
    let mut r: Vec<usize> = Vec::new();
    let mut last: Option<usize> = None;
    let mut done = false;
    while r.len() < TOP_COUNT && !done
        invariant
            match pv {
                Some(s) => pk matches Some(k) && k@ == ascii_lower_seq(s),
                None => pk is None,
            },
            r@.len() <= TOP_COUNT,
            forall|i: int| 0 <= i < r@.len() ==> in_project(records@, pv, #[trigger] r@[i]),
            forall|i: int, j: int| 0 <= i < j < r@.len() ==> ranks_before(records@, #[trigger] r@[i], #[trigger] r@[j]),
            match last {
                Some(l) => r@.len() > 0 && l == r@.last() && l < records@.len(),
                None => r@.len() == 0,
            },
            forall|p: usize| in_project(records@, pv, p) ==> (#[trigger] r@.contains(p) <==> !after(records@, last, p)),
            done ==> forall|p: usize| in_project(records@, pv, p) ==> #[trigger] r@.contains(p),
        decreases TOP_COUNT - r@.len() + (if done { 0int } else { 1int }),
    {
        match next_ranked(records, &pk, Ghost(pv), last) {
            None => {
                done = true;
            },
            Some(b) => {
                let ghost old_r = r@;
                r.push(b);
                proof {
                    assert forall|p: usize| in_project(records@, pv, p) implies (#[trigger] r@.contains(p) <==> !after(records@, Some(b), p)) by {
                        if r@.contains(p) {
                            if p != b {
                                assert(old_r.contains(p)) by {
                                    let k = choose|k: int| 0 <= k < r@.len() && r@[k] == p;
                                    assert(k < old_r.len());
                                    assert(old_r[k] == p);
                                }
                            }
                        } else {
                            assert(!old_r.contains(p)) by {
                                if old_r.contains(p) {
                                    let k = choose|k: int| 0 <= k < old_r.len() && old_r[k] == p;
                                    assert(r@[k] == p);
                                }
                            }
                            assert(p != b) by {
                                assert(r@[r@.len() - 1] == b);
                            }
                        }
                    }
                    assert forall|i: int, j: int| 0 <= i < j < r@.len() implies ranks_before(records@, #[trigger] r@[i], #[trigger] r@[j]) by {
                        if j == r@.len() - 1 && i < j {
                            assert(r@[j] == b);
                            assert(r@[i] == old_r[i]);
                            if i < old_r.len() - 1 {
                                assert(ranks_before(records@, old_r[i], old_r[old_r.len() - 1]));
                            }
                        } else {
                            assert(r@[i] == old_r[i]);
                            assert(r@[j] == old_r[j]);
                        }
                    }
                }
                last = Some(b);
            },
        }
    }
    proof {
        if r@.len() > 0 {
            let l = r@.last();
            assert forall|p: usize, i: int|
                in_project(records@, pv, p) && 0 <= i < r@.len() && !r@.contains(p) implies #[trigger] ranks_before(records@, r@[i], p) by {
                if i < r@.len() - 1 {
                    assert(ranks_before(records@, r@[i], r@[r@.len() - 1]));
                }
            }
        }
    }
    r
}

} // verus!
