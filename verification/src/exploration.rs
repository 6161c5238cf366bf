//! Exploration trees: what a recorded node keeps of its observation, how
//! deep it sits, and the diagnosis of a trajectory's steps.

use vstd::prelude::*;
use vstd::string::StringSliceAdditionalSpecFns;
use vstd::utf8::{decode_utf8, encode_utf8, encode_utf8_decode_utf8, encode_utf8_valid_utf8, decode_utf8_encode_utf8, is_char_boundary, valid_utf8, valid_utf8_split};
use crate::digest::{decimal_of_i64, signed_decimal};
use crate::text::{byte_len, push_all, push_str, str_eq};

verus! {

broadcast use vstd::string::group_string_axioms;

/// The most bytes of an observation a node keeps (32 KiB).
pub const MAX_OBSERVATION_BYTES: usize = 32768usize;

/// The note put after an observation that was cut.
pub open spec fn truncation_note() -> Seq<char> {
    "\n...[truncated to 32KB by Ozymem Dream-RSI guard]"@
}

/// The end of the longest prefix of the bytes `b` of at most `k` bytes that
/// ends on a character boundary.
pub open spec fn cut_point(b: Seq<u8>, k: int) -> int
    decreases k,
{
    if k <= 0 {
        0
    } else if is_char_boundary(b, k) {
        k
    } else {
        cut_point(b, k - 1)
    }
}

/// The observation a node keeps: the whole text when it fits in
/// `MAX_OBSERVATION_BYTES` bytes, else its longest prefix of at most
/// `MAX_OBSERVATION_BYTES` bytes that ends on a character boundary, followed
/// by the truncation note.
pub open spec fn kept_observation(obs: Seq<char>) -> Seq<char> {
    if byte_len(obs) > MAX_OBSERVATION_BYTES {
        decode_utf8(
            encode_utf8(obs).take(cut_point(encode_utf8(obs), MAX_OBSERVATION_BYTES as int)),
        ) + truncation_note()
    } else {
        obs
    }
}

/// The cut lies within the limit and on a character boundary.
proof fn lemma_cut_point(b: Seq<u8>, k: int)
    requires
        valid_utf8(b),
    ensures
        0 <= cut_point(b, k) <= if k < 0 { 0 } else { k },
        is_char_boundary(b, cut_point(b, k)),
    decreases k,
{
    if k > 0 && !is_char_boundary(b, k) {
        lemma_cut_point(b, k - 1);
    }
}

/// The observation stored for a new node (cut to at most 32 KiB, at a
/// character boundary, with a note when longer).
pub fn truncate_observation(observation: String) -> (r: String)
    ensures
        r@ == kept_observation(observation@),
        byte_len(observation@) > MAX_OBSERVATION_BYTES ==> {
            let b = encode_utf8(observation@);
            let k = cut_point(b, MAX_OBSERVATION_BYTES as int);
            &&& 0 <= k <= MAX_OBSERVATION_BYTES
            &&& is_char_boundary(b, k)
            &&& encode_utf8(decode_utf8(b.take(k))) == b.take(k)
        },
{
    let n = observation.as_str().as_bytes().len();
    if n > MAX_OBSERVATION_BYTES {
        let ghost b = encode_utf8(observation@);
        let text = observation.as_str();
        assert(text.spec_bytes() == b);
        let mut k: usize = MAX_OBSERVATION_BYTES;
        while k > 0 && !text.is_char_boundary(k)
            invariant
                k <= MAX_OBSERVATION_BYTES,
                b == encode_utf8(observation@),
                text.spec_bytes() == b,
                text@ == observation@,
                cut_point(b, MAX_OBSERVATION_BYTES as int) == cut_point(b, k as int),
            decreases k,
        {
            k -= 1;
        }
        proof {
            encode_utf8_valid_utf8(observation@);
            lemma_cut_point(b, k as int);
            valid_utf8_split(b, k as int);
            decode_utf8_encode_utf8(b.take(k as int));
        }
        let (head, _rest) = text.split_at(k);
        let mut r = head.to_owned();
        push_str(&mut r, "\n...[truncated to 32KB by Ozymem Dream-RSI guard]");
        proof {
            encode_utf8_decode_utf8(head@);
            assert(b.subrange(0, k as int) =~= b.take(k as int));
        }
        r
    } else {
        observation
    }
}

/// The depth of a new node: one below its parent's when the parent is
/// found, else 0 (a root, or a parent that is not stored).
pub fn node_depth(parent_depth: Option<i64>) -> (r: i64)
    requires
        parent_depth matches Some(d) ==> d < i64::MAX,
    ensures
        r == match parent_depth {
            Some(d) => d + 1,
            None => 0,
        },
{
    match parent_depth {
        Some(d) => d + 1,
        None => 0,
    }
}

/// The subcommands of a Dream round: a simulation over the recorded
/// trajectories, the status of the exploration policy, or the diagnosis of
/// one trajectory.
pub enum DreamSubcommand {
    Run { task: Option<String>, path: Option<String> },
    Status { json: bool },
    Diagnose { trajectory_id: String, path: Option<String>, json: bool },
}

/// The position of the trajectory a simulation round runs on, among the
/// recorded ones listed newest first: the first whose id is `task` where a
/// task is named, else the newest; none where there is no such trajectory.
pub fn pick_trajectory(ids: &Vec<String>, task: Option<&str>) -> (r: Option<usize>)
    ensures
        match task {
            None => r == (if ids@.len() > 0 { Some(0usize) } else { None::<usize> }),
            Some(t) => match r {
                Some(i) => i < ids@.len() && ids@[i as int]@ == t@ && forall|j: int|
                    0 <= j < i ==> #[trigger] ids@[j]@ != t@,
                None => forall|j: int| 0 <= j < ids@.len() ==> #[trigger] ids@[j]@ != t@,
            },
        },
{
    match task {
        None => {
            if ids.len() > 0 {
                Some(0)
            } else {
                None
            }
        },
        Some(t) => {
            let mut i: usize = 0;
            while i < ids.len()
                invariant
                    task == Some(t),
                    i <= ids@.len(),
                    forall|j: int| 0 <= j < i ==> #[trigger] ids@[j]@ != t@,
                decreases ids@.len() - i,
            {
                if str_eq(ids[i].as_str(), t) {
                    return Some(i);
                }
                i += 1;
            }
            None
        },
    }
}

/// The sum of the first `n` step counts.
pub open spec fn steps_sum(steps: Seq<i64>, n: int) -> int
    decreases n,
{
    if n <= 0 {
        0
    } else {
        steps_sum(steps, n - 1) + steps[n - 1]
    }
}

/// Every partial sum of the step counts fits in an `i64`.
pub open spec fn partial_sums_fit(steps: Seq<i64>) -> bool {
    forall|k: int| 0 <= k <= steps.len() ==> i64::MIN <= #[trigger] steps_sum(steps, k) <= i64::MAX
}

/// The decision steps of all the recorded trajectories together.
pub fn total_decision_steps(steps: &Vec<i64>) -> (r: i64)
    requires
        partial_sums_fit(steps@),
    ensures
        r == steps_sum(steps@, steps@.len() as int),
{
    let mut total: i64 = 0;
    let mut i: usize = 0;
    while i < steps.len()
        invariant
            i <= steps@.len(),
            partial_sums_fit(steps@),
            total == steps_sum(steps@, i as int),
        decreases steps@.len() - i,
    {
        assert(i64::MIN <= steps_sum(steps@, i + 1) <= i64::MAX);
        total = total + steps[i];
        i += 1;
    }
    total
}

/// One recorded step of a trajectory, as the diagnosis reads it.
#[derive(Debug, Clone)]
pub struct TrajectoryRow {
    pub id: String,
    pub depth: i64,
    pub cost_tokens: i64,
    pub latency_ms: i64,
    pub is_solution: bool,
    pub is_pruned: bool,
}

/// The diagnosis of a trajectory: its size, its deepest step, what it cost,
/// whether it reached a solution, its slow or costly steps and its pruned
/// steps.
#[derive(Debug, Clone)]
pub struct Diagnosis {
    pub total_steps: usize,
    pub max_depth: i64,
    pub total_tokens: i64,
    pub total_latency_ms: i64,
    pub has_solution: bool,
    pub bottlenecks: Vec<String>,
    pub pruning_opportunities: Vec<String>,
}

/// The deepest depth of the steps; 0 when there are none.
pub open spec fn max_depth_of(rows: Seq<TrajectoryRow>) -> i64
    decreases rows.len(),
{
    if rows.len() == 0 {
        0
    } else if rows.len() == 1 {
        rows[0].depth
    } else {
        let m = max_depth_of(rows.drop_last());
        if rows.last().depth > m {
            rows.last().depth
        } else {
            m
        }
    }
}

/// The tokens the steps cost together.
pub open spec fn token_sum(rows: Seq<TrajectoryRow>) -> int
    decreases rows.len(),
{
    if rows.len() == 0 {
        0
    } else {
        token_sum(rows.drop_last()) + rows.last().cost_tokens
    }
}

/// The latency of the steps together, in milliseconds.
pub open spec fn latency_sum(rows: Seq<TrajectoryRow>) -> int
    decreases rows.len(),
{
    if rows.len() == 0 {
        0
    } else {
        latency_sum(rows.drop_last()) + rows.last().latency_ms
    }
}

/// Every running total of tokens and of latency fits in an `i64`.
pub open spec fn diagnosis_sums_fit(rows: Seq<TrajectoryRow>) -> bool {
    forall|k: int|
        0 <= k <= rows.len() ==> i64::MIN <= #[trigger] token_sum(rows.take(k)) <= i64::MAX && i64::MIN
            <= latency_sum(rows.take(k)) <= i64::MAX
}

/// A step is a bottleneck when it took more than 3 s or cost more than
/// 2000 tokens.
pub open spec fn is_bottleneck(r: TrajectoryRow) -> bool {
    r.latency_ms > 3000 || r.cost_tokens > 2000
}

/// How a bottleneck is reported: `id (N ms, M tokens)`.
pub open spec fn bottleneck_text(r: TrajectoryRow) -> Seq<char> {
    r.id@ + " ("@ + signed_decimal(r.latency_ms as int) + " ms, "@ + signed_decimal(r.cost_tokens as int)
        + " tokens)"@
}

/// The reports of the bottleneck steps, in order.
pub open spec fn bottleneck_texts(rows: Seq<TrajectoryRow>) -> Seq<Seq<char>>
    decreases rows.len(),
{
    if rows.len() == 0 {
        Seq::empty()
    } else if is_bottleneck(rows.last()) {
        bottleneck_texts(rows.drop_last()).push(bottleneck_text(rows.last()))
    } else {
        bottleneck_texts(rows.drop_last())
    }
}

/// The ids of the pruned steps, in order.
pub open spec fn pruned_ids(rows: Seq<TrajectoryRow>) -> Seq<Seq<char>>
    decreases rows.len(),
{
    if rows.len() == 0 {
        Seq::empty()
    } else if rows.last().is_pruned {
        pruned_ids(rows.drop_last()).push(rows.last().id@)
    } else {
        pruned_ids(rows.drop_last())
    }
}

/// The text views of a list of strings.
pub open spec fn texts_of(v: Seq<String>) -> Seq<Seq<char>> {
    v.map_values(|s: String| s@)
}

/// Whether the diagnosis of the steps can add up their tokens and their
/// latency in an `i64`, as `diagnose_rows` needs.
pub fn diagnosis_fits(rows: &Vec<TrajectoryRow>) -> (r: bool)
    ensures
        r == diagnosis_sums_fit(rows@),
{
    let mut tokens: i64 = 0;
    let mut latency: i64 = 0;
    let mut i: usize = 0;
    assert(rows@.take(0) =~= Seq::<TrajectoryRow>::empty());
    while i < rows.len()
        invariant
            i <= rows@.len(),
            tokens == token_sum(rows@.take(i as int)),
            latency == latency_sum(rows@.take(i as int)),
            forall|k: int|
                0 <= k <= i ==> i64::MIN <= #[trigger] token_sum(rows@.take(k)) <= i64::MAX && i64::MIN
                    <= latency_sum(rows@.take(k)) <= i64::MAX,
        decreases rows@.len() - i,
    {
        proof {
            assert(rows@.take(i + 1).drop_last() =~= rows@.take(i as int));
            assert(rows@.take(i + 1).last() == rows@[i as int]);
        }
        let t = match tokens.checked_add(rows[i].cost_tokens) {
            None => {
                proof {
                    assert(!(i64::MIN <= token_sum(rows@.take(i + 1)) <= i64::MAX));
                }
                return false;
            },
            Some(v) => v,
        };
        let l = match latency.checked_add(rows[i].latency_ms) {
            None => {
                proof {
                    assert(!(i64::MIN <= latency_sum(rows@.take(i + 1)) <= i64::MAX));
                    let k = i + 1;
                    assert(0 <= k <= rows@.len());
                    if diagnosis_sums_fit(rows@) {
                        assert(i64::MIN <= token_sum(rows@.take(k)) <= i64::MAX && i64::MIN <= latency_sum(
                            rows@.take(k),
                        ) <= i64::MAX);
                    }
                }
                return false;
            },
            Some(v) => v,
        };
        tokens = t;
        latency = l;
        i += 1;
    }
    assert(rows@.take(i as int) =~= rows@);
    true
}

/// The report line of a bottleneck step.
fn bottleneck_line(r: &TrajectoryRow) -> (s: String)
    ensures
        s@ == bottleneck_text(*r),
{
    let mut s = String::new();
    push_str(&mut s, r.id.as_str());
    push_str(&mut s, " (");
    push_all(&mut s, &decimal_of_i64(r.latency_ms));
    push_str(&mut s, " ms, ");
    push_all(&mut s, &decimal_of_i64(r.cost_tokens));
    push_str(&mut s, " tokens)");
    proof {
        reveal_strlit(" (");
        reveal_strlit(" ms, ");
        reveal_strlit(" tokens)");
    }
    assert(s@ =~= bottleneck_text(*r));
    s
}

/// The diagnosis of a trajectory's steps: how many there are, the deepest
/// depth (0 for none), the tokens and latency together, whether one reached
/// a solution, the bottlenecks (more than 3 s or 2000 tokens), each as
/// `id (N ms, M tokens)`, and the ids of the pruned steps, both in order.
pub fn diagnose_rows(rows: &Vec<TrajectoryRow>) -> (d: Diagnosis)
    requires
        diagnosis_sums_fit(rows@),
    ensures
        d.total_steps == rows@.len(),
        d.max_depth == max_depth_of(rows@),
        d.total_tokens == token_sum(rows@),
        d.total_latency_ms == latency_sum(rows@),
        d.has_solution == exists|i: int| 0 <= i < rows@.len() && #[trigger] rows@[i].is_solution,
        texts_of(d.bottlenecks@) == bottleneck_texts(rows@),
        texts_of(d.pruning_opportunities@) == pruned_ids(rows@),
{
    let mut max_depth: i64 = 0;
    let mut tokens: i64 = 0;
    let mut latency: i64 = 0;
    let mut solved = false;
    let mut bottlenecks: Vec<String> = Vec::new();
    let mut pruned: Vec<String> = Vec::new();
    let mut i: usize = 0;
    proof {
        assert(rows@.take(0) =~= Seq::<TrajectoryRow>::empty());
        assert(texts_of(bottlenecks@) =~= Seq::<Seq<char>>::empty());
        assert(texts_of(pruned@) =~= Seq::<Seq<char>>::empty());
    }
    while i < rows.len()
        invariant
            i <= rows@.len(),
            diagnosis_sums_fit(rows@),
            max_depth == max_depth_of(rows@.take(i as int)),
            tokens == token_sum(rows@.take(i as int)),
            latency == latency_sum(rows@.take(i as int)),
            solved == exists|j: int| 0 <= j < i && #[trigger] rows@[j].is_solution,
            texts_of(bottlenecks@) == bottleneck_texts(rows@.take(i as int)),
            texts_of(pruned@) == pruned_ids(rows@.take(i as int)),
        decreases rows@.len() - i,
    {
        let ghost before = rows@.take(i as int);
        let ghost after = rows@.take(i + 1);
        proof {
            assert(after.drop_last() =~= before);
            assert(after.last() == rows@[i as int]);
            assert(i64::MIN <= token_sum(after) <= i64::MAX);
            assert(i64::MIN <= latency_sum(after) <= i64::MAX);
        }
        let r = &rows[i];
        if i == 0 || r.depth > max_depth {
            max_depth = r.depth;
        }
        tokens = tokens + r.cost_tokens;
        latency = latency + r.latency_ms;
        if r.is_solution {
            solved = true;
        }
        if r.latency_ms > 3000 || r.cost_tokens > 2000 {
            let ghost old_b = texts_of(bottlenecks@);
            let line = bottleneck_line(r);
            bottlenecks.push(line);
            proof {
                assert(texts_of(bottlenecks@) =~= old_b.push(bottleneck_text(rows@[i as int])));
            }
        }
        if r.is_pruned {
            let ghost old_p = texts_of(pruned@);
            let mut id = String::new();
            push_str(&mut id, r.id.as_str());
            pruned.push(id);
            proof {
                assert(texts_of(pruned@) =~= old_p.push(rows@[i as int].id@));
            }
        }
        proof {
            if i == 0 {
                assert(after.len() == 1);
                assert(after[0] == rows@[0]);
            }
            assert(solved == exists|j: int| 0 <= j < i + 1 && #[trigger] rows@[j].is_solution) by {
                if rows@[i as int].is_solution {
                    assert(rows@[i as int].is_solution);
                }
            }
        }
        i += 1;
    }
    assert(rows@.take(i as int) =~= rows@);
    Diagnosis {
        total_steps: rows.len(),
        max_depth,
        total_tokens: tokens,
        total_latency_ms: latency,
        has_solution: solved,
        bottlenecks,
        pruning_opportunities: pruned,
    }
}

} // verus!
