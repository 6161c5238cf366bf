//! Reachability over a list of directed edges, and the facts about a
//! breadth-first walk that the dependency graph's walk is proved by.

use vstd::prelude::*;
use crate::graph::{edges_within, in_neighbors, lemma_out_neighbors_within, out_neighbors};

verus! {

/// There is an edge from `a` to `b`.
pub open spec fn has_edge(edges: Seq<(int, int)>, a: int, b: int) -> bool {
    exists|i: int| 0 <= i < edges.len() && #[trigger] edges[i] == (a, b)
}

/// `p` follows edges, from its first node to its last.
pub open spec fn is_walk(edges: Seq<(int, int)>, p: Seq<int>) -> bool {
    &&& p.len() >= 1
    &&& forall|i: int| 0 <= i < p.len() - 1 ==> #[trigger] has_edge(edges, p[i], p[i + 1])
}

/// `v` is reached from `s` along exactly `k` edges.
pub open spec fn reaches_in(edges: Seq<(int, int)>, s: int, v: int, k: int) -> bool {
    exists|p: Seq<int>|
        #[trigger] is_walk(edges, p) && p.len() == k + 1 && p[0] == s && p.last() == v
}

/// `v` can be reached from `s`.
pub open spec fn reachable(edges: Seq<(int, int)>, s: int, v: int) -> bool {
    exists|k: int| 0 <= k && #[trigger] reaches_in(edges, s, v, k)
}

/// The fewest edges from `s` to `v` is `k`.
pub open spec fn distance(edges: Seq<(int, int)>, s: int, v: int, k: int) -> bool {
    &&& 0 <= k
    &&& reaches_in(edges, s, v, k)
    &&& forall|j: int| 0 <= j < k ==> !#[trigger] reaches_in(edges, s, v, j)
}

/// `k` is the first position of `order` with an edge to `order[i]`, and it
/// comes before `i`.
pub open spec fn first_parent(edges: Seq<(int, int)>, order: Seq<int>, i: int, k: int) -> bool {
    &&& 0 <= k < i < order.len()
    &&& has_edge(edges, order[k], order[i])
    &&& forall|m: int| 0 <= m < k ==> !#[trigger] has_edge(edges, order[m], order[i])
}

/// A first position is never negative.
proof fn lemma_first_pos_nonneg(s: Seq<int>, x: int)
    ensures
        0 <= first_pos(s, x),
    decreases s.len(),
{
    if s.len() > 0 && s[0] != x {
        lemma_first_pos_nonneg(s.drop_first(), x);
    }
}

/// `order[i]` has a first parent before it.
pub open spec fn has_parent(edges: Seq<(int, int)>, order: Seq<int>, i: int) -> bool {
    exists|k: int| #[trigger] first_parent(edges, order, i, k)
}

/// The position of the first occurrence of `x` in `s` (the length of `s`
/// when there is none).
pub open spec fn first_pos(s: Seq<int>, x: int) -> int
    decreases s.len(),
{
    if s.len() == 0 {
        0
    } else if s[0] == x {
        0
    } else {
        1 + first_pos(s.drop_first(), x)
    }
}

/// Nodes with different first parents come in the order of their parents;
/// nodes with the same first parent come in that parent's neighbour order.
pub open spec fn parent_order(edges: Seq<(int, int)>, order: Seq<int>) -> bool {
    forall|i: int, j: int, ki: int, kj: int|
        1 <= i < j && #[trigger] first_parent(edges, order, i, ki) && #[trigger] first_parent(
            edges,
            order,
            j,
            kj,
        ) ==> ki < kj || (ki == kj && first_pos(out_neighbors(edges, order[ki]), order[i])
            < first_pos(out_neighbors(edges, order[ki]), order[j]))
}

/// Breadth-first order: every node after the first has a first parent
/// before it, and the nodes come in the order of `parent_order`.
pub open spec fn breadth_first_order(edges: Seq<(int, int)>, order: Seq<int>) -> bool {
    &&& forall|i: int| 1 <= i < order.len() ==> #[trigger] has_parent(edges, order, i)
    &&& parent_order(edges, order)
}

/// The nodes of `ns` that are not in `seen` and not earlier in `ns`, in
/// order: what a breadth-first walk queues when it visits a node.
pub open spec fn fresh(ns: Seq<int>, seen: Set<int>) -> Seq<int>
    decreases ns.len(),
{
    if ns.len() == 0 {
        Seq::empty()
    } else if seen.contains(ns[0]) {
        fresh(ns.drop_first(), seen)
    } else {
        seq![ns[0]] + fresh(ns.drop_first(), seen.insert(ns[0]))
    }
}

/// The depth recorded for a node (0 for none).
pub open spec fn depth_of(vis: Seq<Option<u32>>, v: int) -> int {
    match vis[v] {
        Some(d) => d as int,
        None => 0,
    }
}

/// The state of the walk from `start`: the visited nodes `o`, the queue `q`,
/// the discovered set and the recorded depths.
pub open spec fn walk_inv(
    edges: Seq<(int, int)>,
    n: int,
    start: int,
    o: Seq<int>,
    q: Seq<int>,
    disc: Set<int>,
    vis: Seq<Option<u32>>,
) -> bool {
    let x = o + q;
    &&& n <= u32::MAX
    &&& edges_within(edges, n)
    &&& 0 <= start < n
    &&& x.len() >= 1
    &&& x[0] == start
    &&& x.no_duplicates()
    &&& forall|i: int| 0 <= i < x.len() ==> 0 <= #[trigger] x[i] < n
    &&& forall|v: int| #[trigger] disc.contains(v) <==> x.contains(v)
    &&& vis.len() == n
    &&& forall|v: int| 0 <= v < n ==> (#[trigger] vis[v] is Some <==> disc.contains(v))
    &&& forall|i: int|
        0 <= i < x.len() ==> distance(edges, start, #[trigger] x[i], depth_of(vis, x[i]))
    &&& forall|i: int, j: int|
        #![trigger x[i], x[j]]
        0 <= i <= j < x.len() ==> depth_of(vis, x[i]) <= depth_of(vis, x[j])
    &&& q.len() > 0 ==> forall|j: int|
        0 <= j < x.len() ==> depth_of(vis, #[trigger] x[j]) <= depth_of(vis, q[0]) + 1
    &&& forall|i: int, b: int|
        0 <= i < o.len() && #[trigger] has_edge(edges, o[i], b) ==> disc.contains(b)
    &&& q.len() > 0 ==> forall|y: int, k: int|
        0 <= k < depth_of(vis, q[0]) && #[trigger] reaches_in(edges, start, y, k) ==> o.contains(y)
    &&& forall|i: int| 0 <= i < x.len() ==> depth_of(vis, #[trigger] x[i]) <= i
    &&& forall|i: int| 1 <= i < x.len() ==> #[trigger] has_parent(edges, x, i)
    &&& forall|i: int, k: int| #[trigger] first_parent(edges, x, i, k) ==> k < o.len()
    &&& parent_order(edges, x)
}

/// An edge from `a` to `b` exists exactly when `b` is among the
/// destinations of the edges leaving `a`.
proof fn lemma_has_edge_out(edges: Seq<(int, int)>, a: int, b: int)
    ensures
        has_edge(edges, a, b) <==> out_neighbors(edges, a).contains(b),
    decreases edges.len(),
{
    if edges.len() > 0 {
        let rest = edges.drop_last();
        lemma_has_edge_out(rest, a, b);
        let r = out_neighbors(edges, a);
        let t = out_neighbors(rest, a);
        if has_edge(edges, a, b) {
            let i = choose|i: int| 0 <= i < edges.len() && #[trigger] edges[i] == (a, b);
            if i < edges.len() - 1 {
                assert(rest[i] == edges[i]);
                assert(has_edge(rest, a, b));
                let j = choose|j: int| 0 <= j < t.len() && t[j] == b;
                if edges.last().0 == a {
                    assert(r[j + 1] == t[j]);
                }
            } else {
                assert(r[0] == b);
            }
        }
        if r.contains(b) {
            let j = choose|j: int| 0 <= j < r.len() && r[j] == b;
            if edges.last().0 == a {
                if j == 0 {
                    assert(edges[edges.len() - 1] == (a, b));
                } else {
                    assert(t[j - 1] == b);
                    let i = choose|i: int| 0 <= i < rest.len() && #[trigger] rest[i] == (a, b);
                    assert(edges[i] == (a, b));
                }
            } else {
                assert(t[j] == b);
                let i = choose|i: int| 0 <= i < rest.len() && #[trigger] rest[i] == (a, b);
                assert(edges[i] == (a, b));
            }
        }
    }
}

/// What `fresh` queues: no node twice, exactly the new ones, in the order of
/// their first occurrence.
proof fn lemma_fresh(ns: Seq<int>, seen: Set<int>)
    ensures
        fresh(ns, seen).no_duplicates(),
        forall|x: int|
            #[trigger] fresh(ns, seen).contains(x) <==> (ns.contains(x) && !seen.contains(x)),
        forall|a: int, b: int|
            0 <= a < b < fresh(ns, seen).len() ==> first_pos(ns, #[trigger] fresh(ns, seen)[a])
                < first_pos(ns, #[trigger] fresh(ns, seen)[b]),
    decreases ns.len(),
{
    if ns.len() > 0 {
        let h = ns[0];
        let rest = ns.drop_first();
        assert forall|y: int| y != h implies #[trigger] first_pos(ns, y) == 1 + first_pos(rest, y) by {
        }
        assert forall|x: int| #[trigger] ns.contains(x) <==> (x == h || rest.contains(x)) by {
            if ns.contains(x) && x != h {
                let j = choose|j: int| 0 <= j < ns.len() && ns[j] == x;
                assert(rest[j - 1] == x);
            }
            if rest.contains(x) {
                let j = choose|j: int| 0 <= j < rest.len() && rest[j] == x;
                assert(ns[j + 1] == x);
            }
        }
        if seen.contains(h) {
            lemma_fresh(rest, seen);
            let f = fresh(rest, seen);
            assert forall|a: int, b: int| 0 <= a < b < f.len() implies first_pos(
                ns,
                #[trigger] f[a],
            ) < first_pos(ns, #[trigger] f[b]) by {
                assert(f.contains(f[a]) && f.contains(f[b]));
            }
        } else {
            let s2 = seen.insert(h);
            lemma_fresh(rest, s2);
            let t = fresh(rest, s2);
            let f = fresh(ns, seen);
            assert(f == seq![h] + t);
            assert forall|i: int| 0 <= i < t.len() implies #[trigger] t[i] != h by {
                assert(t.contains(t[i]));
            }
            assert forall|a: int, b: int| 0 <= a < b < f.len() implies first_pos(
                ns,
                #[trigger] f[a],
            ) < first_pos(ns, #[trigger] f[b]) by {
                assert(f[b] == t[b - 1]);
                assert(t[b - 1] != h);
                lemma_first_pos_nonneg(rest, t[b - 1]);
                if a > 0 {
                    assert(f[a] == t[a - 1]);
                    assert(t[a - 1] != h);
                }
            }
            assert forall|x: int| #[trigger] f.contains(x) <==> (ns.contains(x) && !seen.contains(
                x,
            )) by {
                assert(f[0] == h && ns[0] == h);
                if f.contains(x) && x != h {
                    let j = choose|j: int| 0 <= j < f.len() && f[j] == x;
                    assert(t[j - 1] == x);
                }
                if x != h && t.contains(x) {
                    let j = choose|j: int| 0 <= j < t.len() && t[j] == x;
                    assert(f[j + 1] == x);
                }
            }
            assert(f.no_duplicates()) by {
                assert forall|a: int, b: int| 0 <= a < f.len() && 0 <= b < f.len() && a != b implies f[a]
                    != f[b] by {
                    if a > 0 && b > 0 {
                        assert(f[a] == t[a - 1] && f[b] == t[b - 1]);
                    } else if a == 0 {
                        assert(f[b] == t[b - 1]);
                    } else {
                        assert(f[a] == t[a - 1]);
                    }
                }
            }
        }
    }
}

/// A walk to `u` followed by an edge to `w` reaches `w` in one more step.
proof fn lemma_reach_step(edges: Seq<(int, int)>, s: int, u: int, w: int, k: int)
    requires
        reaches_in(edges, s, u, k),
        has_edge(edges, u, w),
    ensures
        reaches_in(edges, s, w, k + 1),
{
    let p = choose|p: Seq<int>|
        #[trigger] is_walk(edges, p) && p.len() == k + 1 && p[0] == s && p.last() == u;
    let p2 = p.push(w);
    assert forall|i: int| 0 <= i < p2.len() - 1 implies #[trigger] has_edge(
        edges,
        p2[i],
        p2[i + 1],
    ) by {
        if i < p.len() - 1 {
            assert(p2[i] == p[i] && p2[i + 1] == p[i + 1]);
            assert(has_edge(edges, p[i], p[i + 1]));
        }
    }
    assert(is_walk(edges, p2));
}

/// A walk of at least one edge ends with an edge from a node reached one
/// step earlier.
proof fn lemma_reach_back(edges: Seq<(int, int)>, s: int, x: int, k: int)
    requires
        reaches_in(edges, s, x, k),
        k >= 1,
    ensures
        exists|y: int| #[trigger] reaches_in(edges, s, y, k - 1) && has_edge(edges, y, x),
{
    let p = choose|p: Seq<int>|
        #[trigger] is_walk(edges, p) && p.len() == k + 1 && p[0] == s && p.last() == x;
    let p2 = p.take(k);
    assert forall|i: int| 0 <= i < p2.len() - 1 implies #[trigger] has_edge(
        edges,
        p2[i],
        p2[i + 1],
    ) by {
        assert(p2[i] == p[i] && p2[i + 1] == p[i + 1]);
        assert(has_edge(edges, p[i], p[i + 1]));
    }
    assert(is_walk(edges, p2));
    let last = k - 1;
    assert(has_edge(edges, p[last], p[last + 1]));
    assert(p2[0] == s && p2.last() == p[k - 1]);
    assert(reaches_in(edges, s, p[k - 1], k - 1));
}

/// A walk of no edge ends where it starts.
pub(crate) proof fn lemma_reach_zero(edges: Seq<(int, int)>, s: int, x: int)
    requires
        reaches_in(edges, s, x, 0),
    ensures
        x == s,
{
}

/// The start is reached in no step.
pub(crate) proof fn lemma_reach_start(edges: Seq<(int, int)>, s: int)
    ensures
        reaches_in(edges, s, s, 0),
{
    let p = seq![s];
    assert(is_walk(edges, p));
}

/// A set that holds the start and is closed under edges holds every node
/// reachable from the start.
proof fn lemma_closed(edges: Seq<(int, int)>, s: int, set: Set<int>, v: int, k: int)
    requires
        set.contains(s),
        forall|a: int, b: int| set.contains(a) && #[trigger] has_edge(edges, a, b) ==> set.contains(b),
        reaches_in(edges, s, v, k),
    ensures
        set.contains(v),
    decreases k,
{
    if k <= 0 {
        if k == 0 {
            lemma_reach_zero(edges, s, v);
        }
    } else {
        lemma_reach_back(edges, s, v, k);
        let y = choose|y: int| #[trigger] reaches_in(edges, s, y, k - 1) && has_edge(edges, y, v);
        lemma_closed(edges, s, set, y, k - 1);
    }
}

/// A list of distinct nodes of a graph with `n` nodes has at most `n`
/// entries.
proof fn lemma_distinct_bound(x: Seq<int>, n: int)
    requires
        0 <= n,
        x.no_duplicates(),
        forall|i: int| 0 <= i < x.len() ==> 0 <= #[trigger] x[i] < n,
    ensures
        x.len() <= n,
{
    x.unique_seq_to_set();
    vstd::set_lib::lemma_int_range(0, n);
    let r = vstd::set_lib::set_int_range(0, n);
    assert(x.to_set().subset_of(r)) by {
        assert forall|v: int| #[trigger] x.to_set().contains(v) implies r.contains(v) by {
            let i = choose|i: int| 0 <= i < x.len() && x[i] == v;
            assert(0 <= x[i] < n);
        }
    }
    vstd::set_lib::lemma_len_subset(x.to_set(), r);
}

/// A node of a concatenation is a node of one of its parts.
proof fn lemma_concat_contains(a: Seq<int>, b: Seq<int>)
    ensures
        forall|v: int| #[trigger] (a + b).contains(v) <==> (a.contains(v) || b.contains(v)),
{
    assert forall|v: int| #[trigger] (a + b).contains(v) <==> (a.contains(v) || b.contains(v)) by {
        if (a + b).contains(v) {
            let i = choose|i: int| 0 <= i < (a + b).len() && (a + b)[i] == v;
            if i < a.len() {
                assert(a[i] == v);
            } else {
                assert(b[i - a.len()] == v);
            }
        }
        if a.contains(v) {
            let i = choose|i: int| 0 <= i < a.len() && a[i] == v;
            assert((a + b)[i] == v);
        }
        if b.contains(v) {
            let i = choose|i: int| 0 <= i < b.len() && b[i] == v;
            assert((a + b)[a.len() + i] == v);
        }
    }
}

/// The walk's start: nothing visited, the start queued and discovered at
/// depth 0.
pub(crate) proof fn lemma_walk_init(edges: Seq<(int, int)>, n: int, start: int, vis: Seq<Option<u32>>)
    requires
        n <= u32::MAX,
        edges_within(edges, n),
        0 <= start < n,
        vis.len() == n,
        forall|v: int| 0 <= v < n ==> #[trigger] vis[v] == (if v == start { Some(0u32) } else { None }),
    ensures
        walk_inv(edges, n, start, Seq::empty(), seq![start], set![start], vis),
{
    let x = Seq::<int>::empty() + seq![start];
    assert(x =~= seq![start]);
    lemma_reach_start(edges, start);
    assert(distance(edges, start, x[0], depth_of(vis, x[0])));
    assert forall|v: int| #[trigger] set![start].contains(v) <==> x.contains(v) by {
        if v == start {
            assert(x[0] == v);
        }
    }
}

/// What the walk has found once its queue is empty: the visited nodes, each
/// once, are exactly the nodes reachable from the start, each recorded at
/// its distance, in breadth-first order.
pub(crate) proof fn lemma_walk_done(
    edges: Seq<(int, int)>,
    n: int,
    start: int,
    o: Seq<int>,
    disc: Set<int>,
    vis: Seq<Option<u32>>,
)
    requires
        walk_inv(edges, n, start, o, Seq::empty(), disc, vis),
    ensures
        o.len() >= 1,
        o[0] == start,
        depth_of(vis, o[0]) == 0,
        o.no_duplicates(),
        forall|i: int| 0 <= i < o.len() ==> 0 <= #[trigger] o[i] < n,
        forall|v: int| #[trigger] o.contains(v) <==> reachable(edges, start, v),
        forall|i: int| 0 <= i < o.len() ==> distance(edges, start, #[trigger] o[i], depth_of(vis, o[i])),
        breadth_first_order(edges, o),
{
    let x = o + Seq::<int>::empty();
    assert(x =~= o);
    lemma_reach_start(edges, start);
    assert(distance(edges, start, o[0], depth_of(vis, o[0])));
    assert forall|v: int| #[trigger] o.contains(v) <==> reachable(edges, start, v) by {
        if o.contains(v) {
            let i = choose|i: int| 0 <= i < o.len() && o[i] == v;
            assert(distance(edges, start, o[i], depth_of(vis, o[i])));
            assert(reaches_in(edges, start, v, depth_of(vis, o[i])));
        }
        if reachable(edges, start, v) {
            let k = choose|k: int| 0 <= k && #[trigger] reaches_in(edges, start, v, k);
            assert(disc.contains(start)) by {
                assert(o[0] == start);
            }
            assert forall|a: int, b: int| disc.contains(a) && #[trigger] has_edge(edges, a, b) implies disc.contains(b) by {
                let i = choose|i: int| 0 <= i < o.len() && o[i] == a;
                assert(has_edge(edges, o[i], b));
            }
            lemma_closed(edges, start, disc, v, k);
        }
    }
}

/// The depth of the head of the queue is below the node count.
pub(crate) proof fn lemma_walk_depth_bound(
    edges: Seq<(int, int)>,
    n: int,
    start: int,
    o: Seq<int>,
    q: Seq<int>,
    disc: Set<int>,
    vis: Seq<Option<u32>>,
)
    requires
        walk_inv(edges, n, start, o, q, disc, vis),
        q.len() > 0,
    ensures
        depth_of(vis, q[0]) < n,
        o.len() < n,
{
    let x = o + q;
    lemma_distinct_bound(x, n);
    assert(x[o.len() as int] == q[0]);
}

/// The depths a visit records: a node already discovered keeps its depth, a
/// neighbour of the visited node discovered now gets one more than it.
pub open spec fn visit_depths(
    vis: Seq<Option<u32>>,
    vis2: Seq<Option<u32>>,
    ns: Seq<int>,
    d: int,
) -> bool {
    &&& vis2.len() == vis.len()
    &&& forall|v: int|
        0 <= v < vis.len() ==> #[trigger] vis2[v] == (if vis[v] is Some {
            vis[v]
        } else if ns.contains(v) {
            Some(d as u32)
        } else {
            None
        })
}

/// One visit keeps the walk's state: the head of the queue moves to the
/// visited nodes, and its neighbours not yet discovered are queued, in its
/// neighbour order, one edge deeper than it.
pub(crate) proof fn lemma_walk_step(
    edges: Seq<(int, int)>,
    n: int,
    start: int,
    o: Seq<int>,
    q: Seq<int>,
    disc: Set<int>,
    vis: Seq<Option<u32>>,
    vis2: Seq<Option<u32>>,
)
    requires
        walk_inv(edges, n, start, o, q, disc, vis),
        q.len() > 0,
        visit_depths(vis, vis2, out_neighbors(edges, q[0]), depth_of(vis, q[0]) + 1),
    ensures
        walk_inv(
            edges,
            n,
            start,
            o.push(q[0]),
            q.drop_first() + fresh(out_neighbors(edges, q[0]), disc),
            disc + out_neighbors(edges, q[0]).to_set(),
            vis2,
        ),
{
    let u = q[0];
    let d = depth_of(vis, u);
    let ns = out_neighbors(edges, u);
    let f = fresh(ns, disc);
    let o2 = o.push(u);
    let q2 = q.drop_first() + f;
    let d2 = disc + ns.to_set();
    let x = o + q;
    let x2 = o2 + q2;
    lemma_walk_depth_bound(edges, n, start, o, q, disc, vis);
    assert(x2 =~= x + f);
    assert(x[o.len() as int] == u);
    lemma_fresh(ns, disc);
    lemma_out_neighbors_within(edges, n, u);
    lemma_concat_contains(x, f);
    assert forall|b: int| #[trigger] has_edge(edges, u, b) <==> ns.contains(b) by {
        lemma_has_edge_out(edges, u, b);
    }
    // the queued nodes are new, in the graph, and recorded one edge deeper
    assert forall|j: int| 0 <= j < f.len() implies !disc.contains(#[trigger] f[j]) && ns.contains(f[j])
        && 0 <= f[j] < n && vis2[f[j]] == Some((d + 1) as u32) by {
        assert(f.contains(f[j]));
        let m = choose|m: int| 0 <= m < ns.len() && ns[m] == f[j];
        assert(0 <= ns[m] < n);
    }
    assert forall|i: int| 0 <= i < x.len() implies #[trigger] vis2[x[i]] == vis[x[i]] && vis[x[i]] is Some by {
        assert(x.contains(x[i]));
    }
    // no node twice
    assert(x2.no_duplicates()) by {
        assert forall|i: int, j: int| 0 <= i < x.len() && 0 <= j < f.len() implies x[i] != f[j] by {
            assert(x.contains(x[i]));
            assert(!disc.contains(f[j]));
        }
        vstd::seq_lib::lemma_no_dup_in_concat(x, f);
    }
    assert forall|i: int| 0 <= i < x2.len() implies 0 <= #[trigger] x2[i] < n by {
        if i >= x.len() {
            assert(x2[i] == f[i - x.len()]);
        } else {
            assert(x2[i] == x[i]);
        }
    }
    // discovered nodes
    assert forall|v: int| #[trigger] d2.contains(v) <==> x2.contains(v) by {
        if ns.contains(v) && !x.contains(v) {
            assert(f.contains(v));
        }
        if f.contains(v) {
            let j = choose|j: int| 0 <= j < f.len() && f[j] == v;
            assert(ns.contains(f[j]));
        }
    }
    assert forall|v: int| 0 <= v < n implies (#[trigger] vis2[v] is Some <==> d2.contains(v)) by {
    }
    // recorded depths of every node of the new list
    assert forall|i: int| 0 <= i < x2.len() implies depth_of(vis2, #[trigger] x2[i]) == (if i < x.len() {
        depth_of(vis, x[i])
    } else {
        d + 1
    }) by {
        if i < x.len() {
            assert(x2[i] == x[i]);
            assert(vis2[x[i]] == vis[x[i]]);
        } else {
            assert(x2[i] == f[i - x.len()]);
        }
    }
    // distances
    assert(distance(edges, start, x[o.len() as int], d));
    assert forall|i: int| 0 <= i < x2.len() implies distance(
        edges,
        start,
        #[trigger] x2[i],
        depth_of(vis2, x2[i]),
    ) by {
        if i < x.len() {
            assert(x2[i] == x[i]);
            assert(distance(edges, start, x[i], depth_of(vis, x[i])));
        } else {
            let w = f[i - x.len()];
            assert(x2[i] == w);
            assert(has_edge(edges, u, w));
            lemma_reach_step(edges, start, u, w, d);
            assert forall|j: int| 0 <= j < d + 1 implies !#[trigger] reaches_in(edges, start, w, j) by {
                if reaches_in(edges, start, w, j) {
                    if j == 0 {
                        lemma_reach_zero(edges, start, w);
                        assert(x[0] == start);
                        assert(x.contains(w));
                    } else {
                        lemma_reach_back(edges, start, w, j);
                        let y = choose|y: int| #[trigger] reaches_in(edges, start, y, j - 1) && has_edge(
                            edges,
                            y,
                            w,
                        );
                        assert(o.contains(y));
                        let m = choose|m: int| 0 <= m < o.len() && o[m] == y;
                        assert(has_edge(edges, o[m], w));
                    }
                }
            }
        }
    }
    // depths never decrease along the list, and stay within one of the head
    assert forall|i: int, j: int| 0 <= i <= j < x2.len() implies #[trigger] depth_of(vis2, x2[i])
        <= #[trigger] depth_of(vis2, x2[j]) by {
        if j < x.len() {
            assert(depth_of(vis, x[i]) <= depth_of(vis, x[j]));
        } else if i < x.len() {
            assert(depth_of(vis, x[i]) <= depth_of(vis, q[0]) + 1);
        }
    }
    assert forall|i: int, j: int|
        #![trigger x2[i], x2[j]]
        0 <= i <= j < x2.len() implies depth_of(vis2, x2[i]) <= depth_of(vis2, x2[j]) by {
        assert(depth_of(vis2, x2[i]) <= depth_of(vis2, x2[j]));
    }
    assert forall|j: int| 0 <= j < x2.len() implies depth_of(vis2, #[trigger] x2[j]) <= d + 1 by {
        if j < x.len() {
            assert(depth_of(vis, x[j]) <= depth_of(vis, q[0]) + 1);
        }
    }
    if q2.len() > 0 {
        assert(q2[0] == x2[o2.len() as int]);
        assert(x2[o.len() as int] == u);
        assert(depth_of(vis2, x2[o.len() as int]) <= depth_of(vis2, x2[o2.len() as int]));
        assert forall|j: int| 0 <= j < x2.len() implies depth_of(vis2, #[trigger] x2[j]) <= depth_of(
            vis2,
            q2[0],
        ) + 1 by {
            assert(depth_of(vis2, x2[j]) <= d + 1);
        }
    }
    // every visited node's neighbours are discovered
    assert forall|i: int, b: int| 0 <= i < o2.len() && #[trigger] has_edge(edges, o2[i], b) implies d2.contains(
        b,
    ) by {
        if i < o.len() {
            assert(o2[i] == o[i]);
        } else {
            assert(ns.contains(b));
        }
    }
    // every node fewer edges away than the new head is visited
    assert(o2[0] == start) by {
        assert(x2[0] == start);
    }
    if q2.len() > 0 {
        assert(q2[0] == x2[o2.len() as int]);
        assert forall|y: int, k: int|
            0 <= k < depth_of(vis2, q2[0]) && #[trigger] reaches_in(edges, start, y, k) implies o2.contains(y) by {
            if k < d {
                assert(o.contains(y));
                let m = choose|m: int| 0 <= m < o.len() && o[m] == y;
                assert(o2[m] == y);
            } else {
                assert(depth_of(vis2, q2[0]) <= d + 1);
                assert(k == d);
                if k == 0 {
                    lemma_reach_zero(edges, start, y);
                    assert(o2[0] == y);
                } else {
                    lemma_reach_back(edges, start, y, k);
                    let z = choose|z: int| #[trigger] reaches_in(edges, start, z, k - 1) && has_edge(
                        edges,
                        z,
                        y,
                    );
                    assert(o.contains(z));
                    let mz = choose|m: int| 0 <= m < o.len() && o[m] == z;
                    assert(has_edge(edges, o[mz], y));
                    assert(x.contains(y));
                    let m = choose|m: int| 0 <= m < x.len() && x[m] == y;
                    assert(distance(edges, start, x[m], depth_of(vis, x[m])));
                    assert(depth_of(vis, x[m]) <= k);
                    assert(x2[m] == y);
                    if m >= o2.len() {
                        assert(depth_of(vis2, x2[o2.len() as int]) <= depth_of(vis2, x2[m]));
                        assert(false);
                    }
                    assert(o2[m] == y);
                }
            }
        }
    }
    // recorded depths stay within positions
    assert forall|i: int| 0 <= i < x2.len() implies depth_of(vis2, #[trigger] x2[i]) <= i by {
        if i < x.len() {
            assert(x2[i] == x[i]);
        } else {
            assert(depth_of(vis, x[o.len() as int]) <= o.len());
        }
    }
    // first parents
    assert forall|i: int, k: int| 0 <= i < x.len() implies #[trigger] first_parent(edges, x2, i, k)
        == first_parent(edges, x, i, k) by {
        assert(x2[i] == x[i]);
        if 0 <= k < i {
            assert(x2[k] == x[k]);
            assert forall|m: int| 0 <= m < k implies x2[m] == x[m] by {
            }
        }
    }
    assert forall|i: int| x.len() <= i < x2.len() implies #[trigger] first_parent(
        edges,
        x2,
        i,
        o.len() as int,
    ) by {
        let w = x2[i];
        assert(w == f[i - x.len()]);
        assert(x2[o.len() as int] == u);
        assert(has_edge(edges, u, w));
        assert forall|m: int| 0 <= m < o.len() implies !#[trigger] has_edge(edges, x2[m], w) by {
            assert(x2[m] == o[m]);
            if has_edge(edges, o[m], w) {
                assert(d2.contains(w));
                assert(disc.contains(w));
            }
        }
    }
    assert forall|i: int| 1 <= i < x2.len() implies #[trigger] has_parent(edges, x2, i) by {
        if i < x.len() {
            assert(has_parent(edges, x, i));
            let k = choose|k: int| #[trigger] first_parent(edges, x, i, k);
            assert(first_parent(edges, x2, i, k));
        } else {
            assert(first_parent(edges, x2, i, o.len() as int));
        }
    }
    assert forall|i: int, k: int| #[trigger] first_parent(edges, x2, i, k) implies k < o2.len() by {
        if i < x.len() {
            assert(first_parent(edges, x, i, k));
        } else {
            assert(first_parent(edges, x2, i, o.len() as int));
            if k < o.len() {
                assert(has_edge(edges, x2[k], x2[i]));
            } else if k > o.len() {
                assert(has_edge(edges, x2[o.len() as int], x2[i]));
            }
        }
    }
    assert(parent_order(edges, x2)) by {
        assert forall|i: int, j: int, ki: int, kj: int|
            1 <= i < j && #[trigger] first_parent(edges, x2, i, ki) && #[trigger] first_parent(
                edges,
                x2,
                j,
                kj,
            ) implies ki < kj || (ki == kj && first_pos(out_neighbors(edges, x2[ki]), x2[i])
            < first_pos(out_neighbors(edges, x2[ki]), x2[j])) by {
            if j < x.len() {
                assert(first_parent(edges, x, i, ki));
                assert(first_parent(edges, x, j, kj));
                assert(x2[ki] == x[ki] && x2[i] == x[i] && x2[j] == x[j]);
            } else {
                assert(first_parent(edges, x2, j, o.len() as int));
                if kj < o.len() {
                    assert(has_edge(edges, x2[kj], x2[j]));
                } else if kj > o.len() {
                    assert(has_edge(edges, x2[o.len() as int], x2[j]));
                }
                if i < x.len() {
                    assert(first_parent(edges, x, i, ki));
                } else {
                    assert(first_parent(edges, x2, i, o.len() as int));
                    if ki < o.len() {
                        assert(has_edge(edges, x2[ki], x2[i]));
                    } else if ki > o.len() {
                        assert(has_edge(edges, x2[o.len() as int], x2[i]));
                    }
                    assert(x2[ki] == u);
                    assert(x2[i] == f[i - x.len()] && x2[j] == f[j - x.len()]);
                }
            }
        }
    }
}

/// An edge from `a` to `b` exists exactly when `a` is among the origins of
/// the edges arriving at `b`.
proof fn lemma_has_edge_in(edges: Seq<(int, int)>, a: int, b: int)
    ensures
        has_edge(edges, a, b) <==> in_neighbors(edges, b).contains(a),
    decreases edges.len(),
{
    if edges.len() > 0 {
        let rest = edges.drop_last();
        lemma_has_edge_in(rest, a, b);
        let r = in_neighbors(edges, b);
        let t = in_neighbors(rest, b);
        if has_edge(edges, a, b) {
            let i = choose|i: int| 0 <= i < edges.len() && #[trigger] edges[i] == (a, b);
            if i < edges.len() - 1 {
                assert(rest[i] == edges[i]);
                assert(has_edge(rest, a, b));
                let j = choose|j: int| 0 <= j < t.len() && t[j] == a;
                if edges.last().1 == b {
                    assert(r[j + 1] == t[j]);
                }
            } else {
                assert(r[0] == a);
            }
        }
        if r.contains(a) {
            let j = choose|j: int| 0 <= j < r.len() && r[j] == a;
            if edges.last().1 == b {
                if j == 0 {
                    assert(edges[edges.len() - 1] == (a, b));
                } else {
                    assert(t[j - 1] == a);
                    let i = choose|i: int| 0 <= i < rest.len() && #[trigger] rest[i] == (a, b);
                    assert(edges[i] == (a, b));
                }
            } else {
                assert(t[j] == a);
                let i = choose|i: int| 0 <= i < rest.len() && #[trigger] rest[i] == (a, b);
                assert(edges[i] == (a, b));
            }
        }
    }
}

/// The two directions of the graph agree: `b` is among the files `a`
/// depends on exactly when `a` is among the files that depend on `b`.
pub proof fn lemma_directions_agree(edges: Seq<(int, int)>, a: int, b: int)
    ensures
        out_neighbors(edges, a).contains(b) <==> in_neighbors(edges, b).contains(a),
{
    lemma_has_edge_out(edges, a, b);
    lemma_has_edge_in(edges, a, b);
}

/// A node is one edge away from the start exactly when it is not the start
/// and the start has an edge to it: the files an impact walk finds at depth
/// 1 are the file's direct dependencies.
pub proof fn lemma_depth_one_is_direct(edges: Seq<(int, int)>, s: int, v: int)
    ensures
        distance(edges, s, v, 1) <==> (v != s && out_neighbors(edges, s).contains(v)),
{
    lemma_has_edge_out(edges, s, v);
    if distance(edges, s, v, 1) {
        lemma_reach_back(edges, s, v, 1);
        let y = choose|y: int| #[trigger] reaches_in(edges, s, y, 0) && has_edge(edges, y, v);
        lemma_reach_zero(edges, s, y);
        if v == s {
            lemma_reach_start(edges, s);
            assert(reaches_in(edges, s, v, 0));
        }
    }
    if v != s && has_edge(edges, s, v) {
        lemma_reach_start(edges, s);
        lemma_reach_step(edges, s, s, v, 0);
        assert forall|j: int| 0 <= j < 1 implies !#[trigger] reaches_in(edges, s, v, j) by {
            if reaches_in(edges, s, v, j) {
                lemma_reach_zero(edges, s, v);
            }
        }
    }
}

} // verus!
