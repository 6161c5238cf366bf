//! The in-memory dependency graph of a project's files, held in a
//! `petgraph` directed graph, with the index from a file's path to its node.

use vstd::prelude::*;
use petgraph::algo::all_simple_paths;
use petgraph::graph::{DiGraph, NodeIndex};
use petgraph::visit::{Bfs, Visitable};
use crate::impact::{
    analyze_impact, copy_strings, entry_matches, impact_reason, impact_severity, impact_suggestion,
    reported_at, FileNode, ImpactEntry, ImpactVisit,
};
use crate::paths::{normalize_path, normalized};
use crate::reach::{
    is_walk, breadth_first_order, depth_of, distance, fresh, lemma_reach_start, lemma_reach_zero,
    lemma_walk_depth_bound, lemma_walk_done, lemma_walk_init, lemma_walk_step, reachable, reaches_in,
    visit_depths, walk_inv,
};
use crate::text::{chars_of, has_prefix, starts_with, str_eq};

verus! {

broadcast use vstd::string::group_string_axioms;

/// An import edge between two files: the origin depends on the destination.
#[derive(Debug, Clone, Copy)]
pub struct FileEdge;

/// The files a file depends on and the files that depend on it.
#[derive(Debug, Clone)]
pub struct NeighborInfo {
    pub file_path: String,
    pub incoming: Vec<String>,
    pub outgoing: Vec<String>,
}

#[verifier::external_type_specification]
#[verifier::external_body]
#[verifier::reject_recursive_types(N)]
#[verifier::reject_recursive_types(E)]
#[verifier::reject_recursive_types(Ty)]
#[verifier::reject_recursive_types(Ix)]
pub struct ExGraph<N, E, Ty, Ix>(petgraph::graph::Graph<N, E, Ty, Ix>);

#[verifier::external_type_specification]
#[verifier::external_body]
pub struct ExDirected(petgraph::Directed);

/// What a file node holds, as plain values: path, language, strategy,
/// function count and lesson count.
pub type NodeView = (Seq<char>, Seq<char>, Seq<char>, i64, i64);

/// The plain values of a file node.
pub open spec fn node_view(n: FileNode) -> NodeView {
    (n.path@, n.language@, n.strategy@, n.function_count, n.lesson_count)
}

/// The node weights of a graph, by node index.
pub uninterp spec fn graph_nodes(
    g: petgraph::graph::Graph<FileNode, FileEdge, petgraph::Directed, u32>,
) -> Seq<NodeView>;

/// The edges of a graph as (origin, destination) node indices, in the order
/// they were added.
pub uninterp spec fn graph_edges(
    g: petgraph::graph::Graph<FileNode, FileEdge, petgraph::Directed, u32>,
) -> Seq<(int, int)>;

/// Every edge joins two nodes of a graph with `n` nodes.
pub open spec fn edges_within(edges: Seq<(int, int)>, n: int) -> bool {
    forall|i: int|
        0 <= i < edges.len() ==> 0 <= #[trigger] edges[i].0 < n && 0 <= edges[i].1 < n
}

/// The destinations of the edges leaving `a`, the most recently added edge
/// first.
pub open spec fn out_neighbors(edges: Seq<(int, int)>, a: int) -> Seq<int>
    decreases edges.len(),
{
    if edges.len() == 0 {
        Seq::empty()
    } else if edges.last().0 == a {
        seq![edges.last().1] + out_neighbors(edges.drop_last(), a)
    } else {
        out_neighbors(edges.drop_last(), a)
    }
}

/// The origins of the edges arriving at `a`, the most recently added edge
/// first.
pub open spec fn in_neighbors(edges: Seq<(int, int)>, a: int) -> Seq<int>
    decreases edges.len(),
{
    if edges.len() == 0 {
        Seq::empty()
    } else if edges.last().1 == a {
        seq![edges.last().0] + in_neighbors(edges.drop_last(), a)
    } else {
        in_neighbors(edges.drop_last(), a)
    }
}

/// `DiGraph::new`: a graph with no nodes and no edges.
#[verifier::external_body]
fn new_graph() -> (g: DiGraph<FileNode, FileEdge>)
    ensures
        graph_nodes(g) == Seq::<NodeView>::empty(),
        graph_edges(g) == Seq::<(int, int)>::empty(),
{
    DiGraph::new()
}

/// `Graph::add_node`: appends a node with the given weight and returns its
/// index, the former node count. It panics when the count reaches the
/// largest `u32` index, which `requires` leaves out.
#[verifier::external_body]
fn add_node(g: &mut DiGraph<FileNode, FileEdge>, node: FileNode) -> (i: usize)
    requires
        graph_nodes(*old(g)).len() < u32::MAX,
    ensures
        graph_nodes(*final(g)) == graph_nodes(*old(g)).push(node_view(node)),
        graph_edges(*final(g)) == graph_edges(*old(g)),
        i == graph_nodes(*old(g)).len(),
{
    g.add_node(node).index()
}

/// `Graph::add_edge`: appends an edge from `a` to `b`. It panics on a node
/// that does not exist, or when the edge count reaches the largest `u32`
/// index, which `requires` leaves out.
#[verifier::external_body]
fn add_edge(g: &mut DiGraph<FileNode, FileEdge>, a: usize, b: usize)
    requires
        a < graph_nodes(*old(g)).len(),
        b < graph_nodes(*old(g)).len(),
        graph_edges(*old(g)).len() < u32::MAX,
    ensures
        graph_nodes(*final(g)) == graph_nodes(*old(g)),
        graph_edges(*final(g)) == graph_edges(*old(g)).push((a as int, b as int)),
{
    g.add_edge(NodeIndex::new(a), NodeIndex::new(b), FileEdge);
}

/// `Graph::neighbors` (outgoing, for a directed graph): the destinations of
/// the edges leaving `a`, which petgraph documents as listed in reverse order
/// of their addition.
#[verifier::external_body]
fn outgoing_of(g: &DiGraph<FileNode, FileEdge>, a: usize) -> (r: Vec<usize>)
    requires
        a < graph_nodes(*g).len(),
    ensures
        r@.map_values(|x: usize| x as int) == out_neighbors(graph_edges(*g), a as int),
{
    g.neighbors(NodeIndex::new(a)).map(|n| n.index()).collect()
}

/// `Graph::neighbors_directed` with `Incoming`: the origins of the edges
/// arriving at `a`, in reverse order of their addition.
#[verifier::external_body]
fn incoming_of(g: &DiGraph<FileNode, FileEdge>, a: usize) -> (r: Vec<usize>)
    requires
        a < graph_nodes(*g).len(),
    ensures
        r@.map_values(|x: usize| x as int) == in_neighbors(graph_edges(*g), a as int),
{
    g.neighbors_directed(NodeIndex::new(a), petgraph::Direction::Incoming).map(|n| n.index()).collect()
}

/// `Graph::node_weight`: the weight of node `a`.
#[verifier::external_body]
fn node_weight(g: &DiGraph<FileNode, FileEdge>, a: usize) -> (r: Option<&FileNode>)
    requires
        a < graph_nodes(*g).len(),
    ensures
        r is Some,
        node_view(*r->0) == graph_nodes(*g)[a as int],
{
    g.node_weight(NodeIndex::new(a))
}


/// A breadth-first walk of a dependency graph: petgraph's `Bfs` over the
/// graph's node indices. The type of its discovered set (`fixedbitset`'s)
/// cannot be named here, so the walk is held whole and read through the
/// three names below.
#[verifier::external_body]
pub struct Walk {
    bfs: Bfs<NodeIndex<u32>, <DiGraph<(), ()> as Visitable>::Map>,
}

/// The queue of a walk: the nodes discovered and not yet visited, in the
/// order they will be visited.
pub uninterp spec fn walk_queue(w: Walk) -> Seq<int>;

/// The nodes a walk has discovered.
pub uninterp spec fn walk_discovered(w: Walk) -> Set<int>;

/// The node count a walk's discovered set was made for.
pub uninterp spec fn walk_capacity(w: Walk) -> nat;

/// `Bfs::new`: a walk whose queue holds `start` alone and which has
/// discovered `start`, with a discovered set sized for the graph (marking a
/// node beyond that size panics, so `start` must be a node).
#[verifier::external_body]
fn walk_start(g: &DiGraph<FileNode, FileEdge>, start: usize) -> (w: Walk)
    requires
        start < graph_nodes(*g).len(),
    ensures
        walk_queue(w) == seq![start as int],
        walk_discovered(w) == set![start as int],
        walk_capacity(w) == graph_nodes(*g).len(),
{
    Walk { bfs: Bfs::new(g, NodeIndex::new(start)) }
}

/// `Bfs::next`: with an empty queue, `None` and nothing changes; otherwise
/// the head of the queue is taken off and returned, and each node of its
/// `neighbors` (in that order) that is not yet discovered is marked
/// discovered and queued at the back.
#[verifier::external_body]
fn walk_next(w: &mut Walk, g: &DiGraph<FileNode, FileEdge>) -> (r: Option<usize>)
    requires
        graph_nodes(*g).len() <= walk_capacity(*old(w)),
        edges_within(graph_edges(*g), graph_nodes(*g).len() as int),
    ensures
        walk_capacity(*final(w)) == walk_capacity(*old(w)),
        walk_queue(*old(w)).len() == 0 ==> {
            &&& r is None
            &&& walk_queue(*final(w)) == walk_queue(*old(w))
            &&& walk_discovered(*final(w)) == walk_discovered(*old(w))
        },
        walk_queue(*old(w)).len() > 0 ==> {
            let u = walk_queue(*old(w))[0];
            &&& r == Some(u as usize)
            &&& walk_queue(*final(w)) == walk_queue(*old(w)).drop_first() + fresh(
                out_neighbors(graph_edges(*g), u),
                walk_discovered(*old(w)),
            )
            &&& walk_discovered(*final(w)) == walk_discovered(*old(w)) + out_neighbors(
                graph_edges(*g),
                u,
            ).to_set()
        },
{
    w.bfs.next(g).map(|n| n.index())
}

/// The simple paths `petgraph::algo::all_simple_paths` yields from `from` to
/// `to` with at most `max_intermediate` nodes between them, in the order it
/// yields them, each as its node indices. Its order follows its depth-first
/// search over `neighbors`, which only its source states.
pub uninterp spec fn simple_paths_of(edges: Seq<(int, int)>, from: int, to: int, max_intermediate: int) -> Seq<Seq<int>>;

/// The node indices of each path, as plain integers.
pub open spec fn index_paths(v: Seq<Vec<usize>>) -> Seq<Seq<int>> {
    v.map_values(|p: Vec<usize>| p@.map_values(|x: usize| x as int))
}

/// `all_simple_paths(g, from, to, 0, Some(max_intermediate))`, of which the
/// first `max_paths` are taken. Between two different nodes, as its
/// documentation says, each path is simple: it starts at `from`, follows
/// edges, ends at `to`, repeats no node and has at most `max_intermediate`
/// nodes between its ends. (It adds one to `max_intermediate`, hence the
/// bound.) Every node of every path is a node of the graph.
#[verifier::external_body]
fn simple_paths(
    g: &DiGraph<FileNode, FileEdge>,
    from: usize,
    to: usize,
    max_intermediate: usize,
    max_paths: usize,
) -> (r: Vec<Vec<usize>>)
    requires
        from < graph_nodes(*g).len(),
        to < graph_nodes(*g).len(),
        max_intermediate < usize::MAX,
    ensures
        index_paths(r@) == simple_paths_of(
            graph_edges(*g),
            from as int,
            to as int,
            max_intermediate as int,
        ).take(
            if simple_paths_of(graph_edges(*g), from as int, to as int, max_intermediate as int).len()
                < max_paths {
                simple_paths_of(graph_edges(*g), from as int, to as int, max_intermediate as int).len() as int
            } else {
                max_paths as int
            },
        ),
        forall|k: int, m: int|
            0 <= k < r@.len() && 0 <= m < index_paths(r@)[k].len() ==> 0 <= #[trigger] index_paths(
                r@,
            )[k][m] < graph_nodes(*g).len(),
        from != to ==> forall|k: int|
            0 <= k < r@.len() ==> {
                let p = #[trigger] index_paths(r@)[k];
                &&& 2 <= p.len() <= max_intermediate + 2
                &&& p[0] == from
                &&& p.last() == to
                &&& is_walk(graph_edges(*g), p)
                &&& p.no_duplicates()
            },
{
    all_simple_paths::<Vec<NodeIndex>, _>(
        g,
        NodeIndex::new(from),
        NodeIndex::new(to),
        0,
        Some(max_intermediate),
    ).take(max_paths).map(|p| p.iter().map(|n| n.index()).collect()).collect()
}

/// `Graph::raw_edges`: every edge as (origin, destination), in index order.
#[verifier::external_body]
fn edge_list(g: &DiGraph<FileNode, FileEdge>) -> (r: Vec<(usize, usize)>)
    ensures
        r@.map_values(|e: (usize, usize)| (e.0 as int, e.1 as int)) == graph_edges(*g),
{
    g.raw_edges().iter().map(|e| (e.source().index(), e.target().index())).collect()
}

/// `p` is a directory part, `/` and a final name: the directory part is not
/// empty, does not start or end with `/`; the name is not empty, holds no
/// `/` and is not `.`; and `p` holds no `\` or `:`, so that no platform
/// reads a prefix or another separator in it.
pub open spec fn has_directory_part(p: Seq<char>) -> bool {
    &&& !p.contains('\\')
    &&& !p.contains(':')
    &&& p.len() > 0
    &&& p[0] != '/'
    &&& exists|i: int|
        0 < i < p.len() - 1 && #[trigger] p[i] == '/' && p[i - 1] != '/' && !p.skip(i + 1).contains(
            '/',
        ) && p.skip(i + 1) != seq!['.']
}

/// `Path::parent` of a path given as text, as text. Which part is the
/// parent depends on the platform's separators; on every platform it is the
/// path without its final component, so a proper prefix of it, and for a
/// path of the form `has_directory_part` describes it is not empty.
#[verifier::external_body]
fn parent_text(p: &str) -> (r: Option<String>)
    ensures
        r is Some ==> r->0@.len() < p@.len() && p@.take(r->0@.len() as int) == r->0@,
        has_directory_part(p@) ==> r is Some && r->0@.len() > 0,
{
    std::path::Path::new(p).parent().and_then(|d| d.to_str()).map(|d| d.to_string())
}

/// The nodes of a walk's result, in order.
pub open spec fn visit_order(r: Seq<(usize, u32)>) -> Seq<int> {
    r.map_values(|p: (usize, u32)| p.0 as int)
}

/// The last position of `key` in `paths`: the index keeps, for a path, the
/// node last added under it.
pub open spec fn last_position(paths: Seq<Seq<char>>, key: Seq<char>) -> Option<int>
    decreases paths.len(),
{
    if paths.len() == 0 {
        None
    } else if paths.last() == key {
        Some(paths.len() - 1)
    } else {
        last_position(paths.drop_last(), key)
    }
}

/// The edges the stored dependencies give: one per dependency whose two
/// files are indexed, between their nodes, in the order of the dependencies.
pub open spec fn dep_edges(paths: Seq<Seq<char>>, deps: Seq<(Seq<char>, Seq<char>)>) -> Seq<
    (int, int),
>
    decreases deps.len(),
{
    if deps.len() == 0 {
        Seq::empty()
    } else {
        let rest = dep_edges(paths, deps.drop_last());
        match (last_position(paths, deps.last().0), last_position(paths, deps.last().1)) {
            (Some(a), Some(b)) => rest.push((a, b)),
            _ => rest,
        }
    }
}

/// The dependency graph of a project: the files as nodes, an edge from each
/// file to each file it imports, and the index from a path to its node.
pub struct DependencyGraph {
    graph: DiGraph<FileNode, FileEdge>,
    file_index: Vec<String>,
}

impl DependencyGraph {
    /// The files, by node index.
    pub closed spec fn nodes(&self) -> Seq<NodeView> {
        graph_nodes(self.graph)
    }

    /// The dependencies as (origin, destination) node indices, in the order
    /// they were added.
    pub closed spec fn edges(&self) -> Seq<(int, int)> {
        graph_edges(self.graph)
    }

    /// The path of each node.
    pub open spec fn paths(&self) -> Seq<Seq<char>> {
        self.nodes().map_values(|n: NodeView| n.0)
    }

    /// The index holds each node's path, and every edge joins two nodes.
    pub closed spec fn wf(&self) -> bool {
        &&& self.nodes().len() <= u32::MAX
        &&& self.file_index@.len() == self.nodes().len()
        &&& forall|i: int|
            0 <= i < self.nodes().len() ==> #[trigger] self.file_index@[i]@ == self.nodes()[i].0
        &&& edges_within(self.edges(), self.nodes().len() as int)
    }

    /// A graph with no files.
    pub fn new() -> (g: Self)
        ensures
            g.wf(),
            g.nodes() == Seq::<NodeView>::empty(),
            g.edges() == Seq::<(int, int)>::empty(),
    {
        DependencyGraph { graph: new_graph(), file_index: Vec::new() }
    }

    /// The number of files.
    pub fn node_count(&self) -> (n: usize)
        requires
            self.wf(),
        ensures
            n == self.nodes().len(),
    {
        self.file_index.len()
    }

    /// Adds a file as a new node and indexes its path; returns the node.
    pub fn add_file(&mut self, node: FileNode) -> (i: usize)
        requires
            old(self).wf(),
            old(self).nodes().len() < u32::MAX,
        ensures
            final(self).wf(),
            final(self).nodes() == old(self).nodes().push(node_view(node)),
            final(self).edges() == old(self).edges(),
            i == old(self).nodes().len(),
    {
        let path = node.path.clone();
        let i = add_node(&mut self.graph, node);
        self.file_index.push(path);
        i
    }

    /// Adds a dependency from node `a` to node `b`.
    pub fn add_dependency(&mut self, a: usize, b: usize)
        requires
            old(self).wf(),
            a < old(self).nodes().len(),
            b < old(self).nodes().len(),
            old(self).edges().len() < u32::MAX,
        ensures
            final(self).wf(),
            final(self).nodes() == old(self).nodes(),
            final(self).edges() == old(self).edges().push((a as int, b as int)),
    {
        add_edge(&mut self.graph, a, b);
    }

    /// The node indexed under `path`.
    pub fn lookup(&self, path: &str) -> (r: Option<usize>)
        requires
            self.wf(),
        ensures
            match r {
                Some(i) => last_position(self.paths(), path@) == Some(i as int),
                None => last_position(self.paths(), path@) is None,
            },
    {
        let ghost ps = self.paths();
        let mut k: usize = self.file_index.len();
        assert(ps.take(k as int) =~= ps);
        while k > 0
            invariant
                k <= self.file_index@.len(),
                self.wf(),
                ps == self.paths(),
                last_position(ps, path@) == last_position(ps.take(k as int), path@),
            decreases k,
        {
            assert(ps.take(k as int).drop_last() =~= ps.take(k - 1));
            assert(ps.take(k as int).last() == self.file_index@[k - 1]@);
            if str_eq(self.file_index[k - 1].as_str(), path) {
                return Some(k - 1);
            }
            k -= 1;
        }
        None
    }

    /// A graph built from the stored files (in order, each a new node) and
    /// the stored dependencies (an edge for each one whose two files are
    /// indexed).
    pub fn rebuild(rows: &Vec<FileNode>, deps: &Vec<(String, String)>) -> (g: Self)
        requires
            rows@.len() < u32::MAX,
            deps@.len() < u32::MAX,
        ensures
            g.wf(),
            g.nodes() == rows@.map_values(|n: FileNode| node_view(n)),
            g.edges() == dep_edges(g.paths(), deps_view(deps@)),
    {
        let mut g = DependencyGraph::new();
        let mut i: usize = 0;
        while i < rows.len()
            invariant
                i <= rows@.len(),
                rows@.len() < u32::MAX,
                g.wf(),
                g.nodes() == rows@.take(i as int).map_values(|n: FileNode| node_view(n)),
                g.edges() == Seq::<(int, int)>::empty(),
            decreases rows@.len() - i,
        {
            let node = copy_node(&rows[i]);
            g.add_file(node);
            assert(rows@.take(i + 1).map_values(|n: FileNode| node_view(n)) =~= rows@.take(
                i as int,
            ).map_values(|n: FileNode| node_view(n)).push(node_view(rows@[i as int])));
            i += 1;
        }
        assert(rows@.take(i as int) =~= rows@);
        let ghost ps = g.paths();
        let ghost dv = deps_view(deps@);
        let mut j: usize = 0;
        while j < deps.len()
            invariant
                j <= deps@.len(),
                deps@.len() < u32::MAX,
                g.wf(),
                g.nodes() == rows@.map_values(|n: FileNode| node_view(n)),
                ps == g.paths(),
                dv == deps_view(deps@),
                g.edges() == dep_edges(ps, dv.take(j as int)),
                g.edges().len() <= j,
            decreases deps@.len() - j,
        {
            proof {
                assert(dv.take(j + 1).drop_last() =~= dv.take(j as int));
                assert(dv.take(j + 1).last() == (deps@[j as int].0@, deps@[j as int].1@));
            }
            let a = g.lookup(deps[j].0.as_str());
            let b = g.lookup(deps[j].1.as_str());
            match (a, b) {
                (Some(a), Some(b)) => {
                    proof {
                        lemma_last_position_in(ps, deps@[j as int].0@);
                        lemma_last_position_in(ps, deps@[j as int].1@);
                    }
                    g.add_dependency(a, b);
                },
                _ => {},
            }
            j += 1;
        }
        assert(dv.take(j as int) =~= dv);
        g
    }

    /// The node of a file given by the user: the one indexed under the
    /// resolved path, else under the normalized path, else under the path as
    /// given.
    pub fn locate(&self, file_path: &str, resolved: &str) -> (r: Option<usize>)
        requires
            self.wf(),
        ensures
            match r {
                Some(i) => located(self.paths(), file_path@, resolved@) == Some(i as int),
                None => located(self.paths(), file_path@, resolved@) is None,
            },
    {
        match self.lookup(resolved) {
            Some(i) => Some(i),
            None => {
                let norm = normalize_path(file_path);
                match self.lookup(norm.as_str()) {
                    Some(i) => Some(i),
                    None => self.lookup(file_path),
                }
            },
        }
    }

    /// The paths of the given nodes, in order.
    fn paths_at(&self, nodes: &Vec<usize>) -> (r: Vec<String>)
        requires
            self.wf(),
            forall|k: int| 0 <= k < nodes@.len() ==> #[trigger] nodes@[k] < self.nodes().len(),
        ensures
            r@.len() == nodes@.len(),
            forall|k: int|
                0 <= k < nodes@.len() ==> #[trigger] r@[k]@ == self.paths()[nodes@[k] as int],
    {
        let mut r: Vec<String> = Vec::new();
        let mut k: usize = 0;
        while k < nodes.len()
            invariant
                k <= nodes@.len(),
                self.wf(),
                forall|m: int| 0 <= m < nodes@.len() ==> #[trigger] nodes@[m] < self.nodes().len(),
                r@.len() == k,
                forall|m: int| 0 <= m < k ==> #[trigger] r@[m]@ == self.paths()[nodes@[m] as int],
            decreases nodes@.len() - k,
        {
            let p = self.file_index[nodes[k]].clone();
            r.push(p);
            k += 1;
        }
        r
    }

    /// The files that the file depends on (the destinations of its edges,
    /// the most recently added first); none for a file not in the graph.
    pub fn outgoing_deps(&self, file_path: &str, resolved: &str) -> (r: Vec<String>)
        requires
            self.wf(),
        ensures
            match located(self.paths(), file_path@, resolved@) {
                Some(i) => names_of_nodes(r@) == out_neighbors(self.edges(), i).map_values(
                    |j: int| self.paths()[j],
                ),
                None => r@.len() == 0,
            },
    {
        match self.locate(file_path, resolved) {
            None => Vec::new(),
            Some(i) => {
                proof {
                    lemma_located_in(self.paths(), file_path@, resolved@);
                }
                let ns = outgoing_of(&self.graph, i);
                proof {
                    lemma_out_neighbors_within(self.edges(), self.nodes().len() as int, i as int);
                    assert forall|k: int| 0 <= k < ns@.len() implies #[trigger] ns@[k]
                        < self.nodes().len() by {
                        assert(ns@.map_values(|x: usize| x as int)[k] == ns@[k] as int);
                    }
                }
                let r = self.paths_at(&ns);
                proof {
                    let want = out_neighbors(self.edges(), i as int).map_values(
                        |j: int| self.paths()[j],
                    );
                    assert(names_of_nodes(r@) =~= want) by {
                        assert forall|k: int| 0 <= k < r@.len() implies names_of_nodes(r@)[k]
                            == want[k] by {
                            assert(ns@.map_values(|x: usize| x as int)[k] == ns@[k] as int);
                        }
                    }
                }
                r
            },
        }
    }

    /// The files that depend on the file (the origins of the edges arriving
    /// at it, the most recently added first); none for a file not in the
    /// graph.
    pub fn incoming_deps(&self, file_path: &str, resolved: &str) -> (r: Vec<String>)
        requires
            self.wf(),
        ensures
            match located(self.paths(), file_path@, resolved@) {
                Some(i) => names_of_nodes(r@) == in_neighbors(self.edges(), i).map_values(
                    |j: int| self.paths()[j],
                ),
                None => r@.len() == 0,
            },
    {
        match self.locate(file_path, resolved) {
            None => Vec::new(),
            Some(i) => {
                proof {
                    lemma_located_in(self.paths(), file_path@, resolved@);
                }
                let ns = incoming_of(&self.graph, i);
                proof {
                    lemma_in_neighbors_within(self.edges(), self.nodes().len() as int, i as int);
                    assert forall|k: int| 0 <= k < ns@.len() implies #[trigger] ns@[k]
                        < self.nodes().len() by {
                        assert(ns@.map_values(|x: usize| x as int)[k] == ns@[k] as int);
                    }
                }
                let r = self.paths_at(&ns);
                proof {
                    let want = in_neighbors(self.edges(), i as int).map_values(
                        |j: int| self.paths()[j],
                    );
                    assert(names_of_nodes(r@) =~= want) by {
                        assert forall|k: int| 0 <= k < r@.len() implies names_of_nodes(r@)[k]
                            == want[k] by {
                            assert(ns@.map_values(|x: usize| x as int)[k] == ns@[k] as int);
                        }
                    }
                }
                r
            },
        }
    }

    /// The neighbours of a file in both directions.
    pub fn neighbor_info(&self, file_path: &str, resolved: &str) -> (r: NeighborInfo)
        requires
            self.wf(),
        ensures
            r.file_path@ == file_path@,
            match located(self.paths(), file_path@, resolved@) {
                Some(i) => {
                    &&& names_of_nodes(r.incoming@) == in_neighbors(self.edges(), i).map_values(
                        |j: int| self.paths()[j],
                    )
                    &&& names_of_nodes(r.outgoing@) == out_neighbors(
                        self.edges(),
                        i,
                    ).map_values(|j: int| self.paths()[j])
                },
                None => r.incoming@.len() == 0 && r.outgoing@.len() == 0,
            },
    {
        let incoming = self.incoming_deps(file_path, resolved);
        let outgoing = self.outgoing_deps(file_path, resolved);
        NeighborInfo { file_path: file_path.to_string(), incoming, outgoing }
    }

    /// The breadth-first walk from node `start` (petgraph's `Bfs`), each
    /// visited node with its depth, the number of edges it was first reached
    /// by. The walk visits every node reachable from the start and no other,
    /// each once, the start first at depth 0, each node at its distance from
    /// the start, in breadth-first order.
    pub fn breadth_first(&self, start: usize) -> (r: Vec<(usize, u32)>)
        requires
            self.wf(),
            start < self.nodes().len(),
        ensures
            breadth_first_walk(self.edges(), start as int, r@),
            forall|i: int| 0 <= i < r@.len() ==> #[trigger] r@[i].0 < self.nodes().len(),
    {
        let n = self.file_index.len();
        let ghost edges = self.edges();
        let mut vis: Vec<Option<u32>> = Vec::new();
        let mut k: usize = 0;
        while k < n
            invariant
                k <= n,
                vis@.len() == k,
                forall|v: int| 0 <= v < k ==> #[trigger] vis@[v] == (if v == start {
                    Some(0u32)
                } else {
                    None
                }),
            decreases n - k,
        {
            if k == start {
                vis.push(Some(0));
            } else {
                vis.push(None);
            }
            k += 1;
        }
        let mut walk = walk_start(&self.graph, start);
        let mut out: Vec<(usize, u32)> = Vec::new();
        proof {
            lemma_walk_init(edges, n as int, start as int, vis@);
            assert(visit_order(out@) =~= Seq::<int>::empty());
        }
        loop
            invariant
                self.wf(),
                edges == self.edges(),
                n == self.nodes().len(),
                start < n,
                walk_capacity(walk) == n,
                walk_inv(
                    edges,
                    n as int,
                    start as int,
                    visit_order(out@),
                    walk_queue(walk),
                    walk_discovered(walk),
                    vis@,
                ),
                forall|i: int|
                    0 <= i < out@.len() ==> #[trigger] out@[i].1 as int == depth_of(
                        vis@,
                        out@[i].0 as int,
                    ),
            ensures
                walk_queue(walk) == Seq::<int>::empty(),
            decreases n - out@.len(),
        {
            let ghost o = visit_order(out@);
            let ghost q = walk_queue(walk);
            let ghost disc = walk_discovered(walk);
            let ghost vis0 = vis@;
            let next = walk_next(&mut walk, &self.graph);
            match next {
                None => {
                    assert(q =~= Seq::<int>::empty());
                    break;
                },
                Some(u) => {
                    proof {
                        lemma_walk_depth_bound(edges, n as int, start as int, o, q, disc, vis0);
                        assert((o + q)[o.len() as int] == q[0]);
                    }
                    let d: u32 = match vis[u] {
                        Some(d) => d,
                        None => 0,
                    };
                    assert(d as int == depth_of(vis0, u as int));
                    let ns = outgoing_of(&self.graph, u);
                    let ghost nsi = ns@.map_values(|x: usize| x as int);
                    proof {
                        lemma_out_neighbors_within(edges, n as int, u as int);
                    }
                    let mut j: usize = 0;
                    while j < ns.len()
                        invariant
                            j <= ns@.len(),
                            nsi == ns@.map_values(|x: usize| x as int),
                            nsi == out_neighbors(edges, u as int),
                            forall|m: int| 0 <= m < nsi.len() ==> 0 <= #[trigger] nsi[m] < n,
                            d < u32::MAX,
                            vis@.len() == n,
                            vis0.len() == n,
                            forall|v: int| 0 <= v < n ==> #[trigger] vis@[v] == (if vis0[v] is Some {
                                vis0[v]
                            } else if nsi.take(j as int).contains(v) {
                                Some((d + 1) as u32)
                            } else {
                                None
                            }),
                        decreases ns@.len() - j,
                    {
                        let b = ns[j];
                        assert(nsi[j as int] == b as int);
                        if vis[b].is_none() {
                            vis.set(b, Some(d + 1));
                        }
                        proof {
                            let t0 = nsi.take(j as int);
                            let t1 = nsi.take(j + 1);
                            assert forall|v: int| #[trigger] t1.contains(v) <==> (t0.contains(v) || v == b) by {
                                if t1.contains(v) && v != b {
                                    let m = choose|m: int| 0 <= m < t1.len() && t1[m] == v;
                                    assert(t0[m] == v);
                                }
                                if t0.contains(v) {
                                    let m = choose|m: int| 0 <= m < t0.len() && t0[m] == v;
                                    assert(t1[m] == v);
                                }
                                if v == b {
                                    assert(t1[j as int] == v);
                                }
                            }
                        }
                        j += 1;
                    }
                    proof {
                        assert(nsi.take(j as int) =~= nsi);
                        assert(visit_depths(vis0, vis@, out_neighbors(edges, q[0]), depth_of(vis0, q[0]) + 1));
                        lemma_walk_step(edges, n as int, start as int, o, q, disc, vis0, vis@);
                    }
                    out.push((u, d));
                    proof {
                        assert(visit_order(out@) =~= o.push(q[0]));
                        assert forall|i: int| 0 <= i < out@.len() implies #[trigger] out@[i].1 as int
                            == depth_of(vis@, out@[i].0 as int) by {
                            let x = o + q;
                            if i < o.len() {
                                assert(x[i] == o[i]);
                                assert(x.contains(x[i]));
                                assert(o[i] == out@[i].0 as int);
                            } else {
                                assert(x.contains(x[o.len() as int]));
                            }
                        }
                    }
                },
            }
        }
        proof {
            lemma_walk_done(edges, n as int, start as int, visit_order(out@), walk_discovered(walk), vis@);
            let o = visit_order(out@);
            assert(o[0] == out@[0].0 as int);
            assert forall|i: int| 0 <= i < out@.len() implies distance(
                edges,
                start as int,
                #[trigger] out@[i].0 as int,
                out@[i].1 as int,
            ) by {
                assert(o[i] == out@[i].0 as int);
            }
            assert forall|i: int| 0 <= i < out@.len() implies #[trigger] out@[i].0 < n by {
                assert(o[i] == out@[i].0 as int);
            }
        }
        out
    }

    /// The paths of the nodes of each path, in order.
    pub fn paths_of_routes(&self, routes: &Vec<Vec<usize>>) -> (r: Vec<Vec<String>>)
        requires
            self.wf(),
            forall|k: int, m: int|
                0 <= k < routes@.len() && 0 <= m < routes@[k]@.len() ==> #[trigger] routes@[k]@[m]
                    < self.nodes().len(),
        ensures
            r@.len() == routes@.len(),
            forall|k: int|
                0 <= k < routes@.len() ==> names_of_nodes(#[trigger] r@[k]@) == routes@[k]@.map_values(
                    |j: usize| self.paths()[j as int],
                ),
    {
        let mut r: Vec<Vec<String>> = Vec::new();
        let mut k: usize = 0;
        while k < routes.len()
            invariant
                k <= routes@.len(),
                self.wf(),
                forall|a: int, m: int|
                    0 <= a < routes@.len() && 0 <= m < routes@[a]@.len() ==> #[trigger] routes@[a]@[m]
                        < self.nodes().len(),
                r@.len() == k,
                forall|a: int|
                    0 <= a < k ==> names_of_nodes(#[trigger] r@[a]@) == routes@[a]@.map_values(
                        |j: usize| self.paths()[j as int],
                    ),
            decreases routes@.len() - k,
        {
            let route = &routes[k];
            assert forall|m: int| 0 <= m < route@.len() implies #[trigger] route@[m]
                < self.nodes().len() by {
                assert(routes@[k as int]@[m] < self.nodes().len());
            }
            let names = self.paths_at(route);
            assert(names_of_nodes(names@) =~= route@.map_values(|j: usize| self.paths()[j as int]));
            r.push(names);
            k += 1;
        }
        r
    }

    /// Up to `max_paths` of the simple paths from one file to another with
    /// at most `max_hops` files between them, as petgraph's
    /// `all_simple_paths` yields them, each as the files' paths; none when
    /// either file is not in the graph. A file is found under its resolved
    /// path, else under the path as given.
    pub fn find_graph_path(
        &self,
        from: &str,
        from_resolved: &str,
        to: &str,
        to_resolved: &str,
        max_paths: usize,
        max_hops: usize,
    ) -> (r: Vec<Vec<String>>)
        requires
            self.wf(),
            max_hops < usize::MAX,
        ensures
            match (found_at(self.paths(), from@, from_resolved@), found_at(self.paths(), to@, to_resolved@)) {
                (Some(a), Some(b)) => {
                    let all = simple_paths_of(self.edges(), a, b, max_hops as int);
                    &&& r@.len() == (if all.len() < max_paths {
                        all.len() as int
                    } else {
                        max_paths as int
                    })
                    &&& forall|k: int|
                        0 <= k < r@.len() ==> names_of_nodes(#[trigger] r@[k]@) == all[k].map_values(
                            |j: int| self.paths()[j],
                        )
                    &&& a != b ==> forall|k: int|
                        0 <= k < r@.len() ==> {
                            let p = #[trigger] all[k];
                            &&& 2 <= p.len() <= max_hops + 2
                            &&& p[0] == a
                            &&& p.last() == b
                            &&& is_walk(self.edges(), p)
                            &&& p.no_duplicates()
                        }
                },
                _ => r@.len() == 0,
            },
    {
        let start = match self.lookup(from_resolved) {
            Some(i) => Some(i),
            None => self.lookup(from),
        };
        let end = match self.lookup(to_resolved) {
            Some(i) => Some(i),
            None => self.lookup(to),
        };
        match (start, end) {
            (Some(a), Some(b)) => {
                proof {
                    lemma_last_position_in(self.paths(), from_resolved@);
                    lemma_last_position_in(self.paths(), from@);
                    lemma_last_position_in(self.paths(), to_resolved@);
                    lemma_last_position_in(self.paths(), to@);
                }
                let routes = simple_paths(&self.graph, a, b, max_hops, max_paths);
                let ghost all = simple_paths_of(self.edges(), a as int, b as int, max_hops as int);
                proof {
                    assert forall|k: int, m: int|
                        0 <= k < routes@.len() && 0 <= m < routes@[k]@.len() implies #[trigger] routes@[k]@[m]
                            < self.nodes().len() by {
                        assert(index_paths(routes@)[k][m] == routes@[k]@[m] as int);
                    }
                }
                let r = self.paths_of_routes(&routes);
                proof {
                    let m = if all.len() < max_paths {
                        all.len() as int
                    } else {
                        max_paths as int
                    };
                    assert(index_paths(routes@) == all.take(m));
                    assert(routes@.len() == index_paths(routes@).len());
                    assert(r@.len() == m);
                    assert forall|k: int| 0 <= k < m implies index_paths(routes@)[k] == all[k] by {
                        assert(all.take(m)[k] == all[k]);
                    }
                    if a != b {
                        assert forall|k: int| 0 <= k < r@.len() implies {
                            let p = #[trigger] all[k];
                            &&& 2 <= p.len() <= max_hops + 2
                            &&& p[0] == a
                            &&& p.last() == b
                            &&& is_walk(self.edges(), p)
                            &&& p.no_duplicates()
                        } by {
                            assert(index_paths(routes@)[k] == all[k]);
                        }
                    }
                    assert forall|k: int| 0 <= k < r@.len() implies names_of_nodes(#[trigger] r@[k]@)
                        == all[k].map_values(|j: int| self.paths()[j]) by {
                        assert(index_paths(routes@)[k] == all[k]);
                        assert(names_of_nodes(r@[k]@) =~= all[k].map_values(|j: int| self.paths()[j]));
                    }
                }
                r
            },
            _ => Vec::new(),
        }
    }

    /// The indexed files under `parent` other than the file itself (under
    /// `resolved` or `norm`), each once, at most four, in node order; none
    /// when `parent` is empty.
    pub fn nearby_files(&self, resolved: &str, norm: &str, parent: &str) -> (r: Vec<String>)
        requires
            self.wf(),
        ensures
            names_of_nodes(r@) == nearby_in(
                self.paths(),
                resolved@,
                norm@,
                parent@,
                self.paths().len() as int,
            ),
    {
        let ghost ps = self.paths();
        let mut r: Vec<String> = Vec::new();
        let pv = chars_of(parent);
        if pv.len() == 0 {
            return r;
        }
        let mut i: usize = 0;
        while i < self.file_index.len()
            invariant
                i <= self.file_index@.len(),
                self.wf(),
                ps == self.paths(),
                pv@ == parent@,
                parent@.len() > 0,
                names_of_nodes(r@) == nearby_in(ps, resolved@, norm@, parent@, i as int),
            ensures
                i == self.file_index@.len() || r@.len() >= 4,
                names_of_nodes(r@) == nearby_in(ps, resolved@, norm@, parent@, i as int),
                i <= self.file_index@.len(),
            decreases self.file_index@.len() - i,
        {
            assert(ps[i as int] == self.file_index@[i as int]@);
            if r.len() >= 4 {
                break;
            }
            let p = self.file_index[i].as_str();
            let last = self.lookup(p);
            let keep = match last {
                Some(l) => l == i && !str_eq(p, resolved) && !str_eq(p, norm) && starts_with(
                    &chars_of(p),
                    &pv,
                ),
                None => false,
            };
            if keep {
                r.push(self.file_index[i].clone());
                assert(names_of_nodes(r@) =~= nearby_in(ps, resolved@, norm@, parent@, i as int).push(
                    ps[i as int],
                ));
            }
            i += 1;
        }
        proof {
            assert(names_of_nodes(r@).len() == r@.len());
            lemma_nearby_full(ps, resolved@, norm@, parent@, i as int, ps.len() as int);
        }
        r
    }

    /// The files whose contracts are worth reading beside a file's: its
    /// neighbours in the graph, or, when it has none, up to four indexed
    /// files of its directory (as `Path::parent` of the resolved path gives
    /// it).
    pub fn speculative_neighbors(&self, file_path: &str, resolved: &str) -> (r: Vec<String>)
        requires
            self.wf(),
        ensures
            graph_neighbors(self.paths(), self.edges(), located(self.paths(), file_path@, resolved@)).len()
                > 0 ==> names_of_nodes(r@) == graph_neighbors(
                self.paths(),
                self.edges(),
                located(self.paths(), file_path@, resolved@),
            ),
            graph_neighbors(self.paths(), self.edges(), located(self.paths(), file_path@, resolved@)).len()
                == 0 ==> exists|parent: Seq<char>|
                names_of_nodes(r@) == #[trigger] nearby_in(
                    self.paths(),
                    resolved@,
                    normalized(file_path@),
                    parent,
                    self.paths().len() as int,
                ) && (parent.len() == 0 || (parent.len() < resolved@.len() && has_prefix(
                    resolved@,
                    parent,
                ))) && (has_directory_part(resolved@) ==> parent.len() > 0),
    {
        let ghost ps = self.paths();
        let ghost at = located(ps, file_path@, resolved@);
        let mut list: Vec<String> = Vec::new();
        match self.locate(file_path, resolved) {
            None => {},
            Some(i) => {
                proof {
                    lemma_located_in(ps, file_path@, resolved@);
                }
                list = self.outgoing_deps(file_path, resolved);
                let edges = edge_list(&self.graph);
                let ghost ev = edges@.map_values(|e: (usize, usize)| (e.0 as int, e.1 as int));
                let ghost base = out_neighbors(self.edges(), i as int).map_values(|j: int| ps[j]);
                assert(names_of_nodes(list@) =~= base);
                let mut k: usize = 0;
                while k < edges.len()
                    invariant
                        k <= edges@.len(),
                        self.wf(),
                        ps == self.paths(),
                        ev == edges@.map_values(|e: (usize, usize)| (e.0 as int, e.1 as int)),
                        ev == self.edges(),
                        names_of_nodes(list@) == add_sources(ps, ev.take(k as int), i as int, base),
                    decreases edges@.len() - k,
                {
                    let (a, b) = edges[k];
                    assert(ev[k as int] == (a as int, b as int));
                    assert(ev.take(k + 1).drop_last() =~= ev.take(k as int));
                    assert(ev.take(k + 1).last() == ev[k as int]);
                    assert(0 <= a < self.nodes().len()) by {
                        assert(self.edges()[k as int].0 == a);
                    }
                    if b == i {
                        let p = self.file_index[a].clone();
                        assert(p@ == ps[a as int]);
                        if !contains_text(&list, p.as_str()) {
                            list.push(p);
                            assert(names_of_nodes(list@) =~= add_sources(
                                ps,
                                ev.take(k as int),
                                i as int,
                                base,
                            ).push(ps[a as int]));
                        }
                    }
                    k += 1;
                }
                assert(ev.take(k as int) =~= ev);
            },
        }
        assert(names_of_nodes(list@) == graph_neighbors(ps, self.edges(), at));
        if list.len() > 0 {
            return list;
        }
        let norm = normalize_path(file_path);
        let parent = match parent_text(resolved) {
            Some(p) => p,
            None => String::new(),
        };
        proof {
            if parent@.len() > 0 {
                assert(resolved@.take(parent@.len() as int) == parent@);
            }
        }
        let r = self.nearby_files(resolved, norm.as_str(), parent.as_str());
        assert(names_of_nodes(r@) == nearby_in(ps, resolved@, normalized(file_path@), parent@, ps.len() as int));
        r
    }

    /// The walk that judges the impact of a change to a file: the
    /// breadth-first walk from the file's node; none for a file not in the
    /// graph.
    pub fn reached_files(&self, file_path: &str, resolved: &str) -> (r: Vec<(usize, u32)>)
        requires
            self.wf(),
        ensures
            match located(self.paths(), file_path@, resolved@) {
                Some(s) => breadth_first_walk(self.edges(), s, r@),
                None => r@.len() == 0,
            },
            forall|i: int| 0 <= i < r@.len() ==> #[trigger] r@[i].0 < self.nodes().len(),
    {
        match self.locate(file_path, resolved) {
            None => Vec::new(),
            Some(s) => {
                proof {
                    lemma_located_in(self.paths(), file_path@, resolved@);
                }
                self.breadth_first(s)
            },
        }
    }

    /// The impact of a change to a file: the breadth-first walk from the
    /// file's node, each file it reaches other than the file itself and at
    /// most `max_depth` edges away judged in walk order (`analyze_impact`),
    /// with the functions and line range `details` holds for its node; none
    /// for a file not in the graph. Every reported file is reachable, at its
    /// distance (between 1 and `max_depth`), each once, and every file at
    /// such a distance is reported.
    pub fn impact_of(
        &self,
        file_path: &str,
        resolved: &str,
        max_depth: u32,
        details: &Vec<(Vec<String>, i64, i64)>,
    ) -> (r: Vec<ImpactEntry>)
        requires
            self.wf(),
            details@.len() == self.nodes().len(),
        ensures
            match located(self.paths(), file_path@, resolved@) {
                None => r@.len() == 0,
                Some(s) => exists|w: Seq<(usize, u32)>|
                    #[trigger] breadth_first_walk(self.edges(), s, w) && impact_from_walk(
                        self.nodes(),
                        w,
                        s,
                        max_depth,
                        details@,
                        r@,
                    ) && impact_covers(self.edges(), w, s, max_depth) && (forall|i: int|
                        0 <= i < w.len() ==> #[trigger] w[i].0 < self.nodes().len()),
            },
    {
        match self.locate(file_path, resolved) {
            None => Vec::new(),
            Some(s) => {
                proof {
                    lemma_located_in(self.paths(), file_path@, resolved@);
                }
                let w = self.breadth_first(s);
                let mut visits: Vec<ImpactVisit> = Vec::new();
                let mut i: usize = 0;
                while i < w.len()
                    invariant
                        i <= w@.len(),
                        self.wf(),
                        details@.len() == self.nodes().len(),
                        forall|j: int| 0 <= j < w@.len() ==> #[trigger] w@[j].0 < self.nodes().len(),
                        visits@.len() == i,
                        forall|j: int| 0 <= j < i ==> visit_of(#[trigger] visits@[j], self.nodes(), w@[j], s as int, details@),
                    decreases w@.len() - i,
                {
                    let (v, d) = w[i];
                    let node = self.file_node(v);
                    let functions = copy_strings(&details[v].0);
                    visits.push(ImpactVisit {
                        node,
                        depth: d,
                        is_start: v == s,
                        functions,
                        start_line: details[v].1,
                        end_line: details[v].2,
                    });
                    i += 1;
                }
                let r = analyze_impact(&visits, max_depth);
                proof {
                    lemma_reported_positions(visits@, w@, s as int, max_depth, self.nodes(), details@);
                    let pos = walk_reported(w@, s as int, max_depth);
                    lemma_walk_reported(w@, s as int, max_depth);
                    assert forall|k: int| 0 <= k < r@.len() implies entry_for(
                        #[trigger] r@[k],
                        self.nodes()[w@[pos[k]].0 as int],
                        w@[pos[k]].1,
                        details@[w@[pos[k]].0 as int],
                    ) by {
                        let vi = visits@[pos[k]];
                        assert(entry_matches(r@[k], vi));
                        assert(visit_of(vi, self.nodes(), w@[pos[k]], s as int, details@));
                    }
                    lemma_impact_covers(self.edges(), w@, s as int, max_depth);
                    assert(breadth_first_walk(self.edges(), s as int, w@));
                }
                r
            },
        }
    }

    /// A copy of the file at node `i`.
    pub fn file_node(&self, i: usize) -> (r: FileNode)
        requires
            self.wf(),
            i < self.nodes().len(),
        ensures
            node_view(r) == self.nodes()[i as int],
    {
        let n = node_weight(&self.graph, i).unwrap();
        copy_node(n)
    }
}

/// The dependencies as plain values.
pub open spec fn deps_view(deps: Seq<(String, String)>) -> Seq<(Seq<char>, Seq<char>)> {
    deps.map_values(|d: (String, String)| (d.0@, d.1@))
}

/// The texts of a list of strings.
pub open spec fn names_of_nodes(v: Seq<String>) -> Seq<Seq<char>> {
    v.map_values(|s: String| s@)
}

/// The node a file given by the user stands for: the one indexed under the
/// resolved path, else under the normalized path, else under the path as
/// given.
pub open spec fn located(paths: Seq<Seq<char>>, file_path: Seq<char>, resolved: Seq<char>) -> Option<
    int,
> {
    match last_position(paths, resolved) {
        Some(i) => Some(i),
        None => match last_position(paths, normalized(file_path)) {
            Some(i) => Some(i),
            None => last_position(paths, file_path),
        },
    }
}

/// The node a file stands for when found under its resolved path, else
/// under the path as given.
pub open spec fn found_at(paths: Seq<Seq<char>>, file_path: Seq<char>, resolved: Seq<char>) -> Option<int> {
    match last_position(paths, resolved) {
        Some(i) => Some(i),
        None => last_position(paths, file_path),
    }
}

/// `r` is the breadth-first walk from `start`, each node with its depth: it
/// lists every node reachable from the start and no other, each once, the
/// start first at depth 0, each node at its distance from the start, in
/// breadth-first order.
pub open spec fn breadth_first_walk(edges: Seq<(int, int)>, start: int, r: Seq<(usize, u32)>) -> bool {
    &&& r.len() >= 1
    &&& r[0].0 as int == start
    &&& r[0].1 == 0
    &&& visit_order(r).no_duplicates()
    &&& forall|v: int| #[trigger] visit_order(r).contains(v) <==> reachable(edges, start, v)
    &&& forall|i: int|
        0 <= i < r.len() ==> distance(edges, start, #[trigger] r[i].0 as int, r[i].1 as int)
    &&& breadth_first_order(edges, visit_order(r))
}

/// The positions of the walk's entries other than the start that lie at
/// most `max_depth` edges away, in walk order.
pub open spec fn walk_reported(w: Seq<(usize, u32)>, s: int, max_depth: u32) -> Seq<int>
    decreases w.len(),
{
    if w.len() == 0 {
        Seq::empty()
    } else if w.last().0 as int != s && w.last().1 <= max_depth {
        walk_reported(w.drop_last(), s, max_depth).push(w.len() - 1)
    } else {
        walk_reported(w.drop_last(), s, max_depth)
    }
}

/// The visit handed to `analyze_impact` for a walk entry: the file at its
/// node, its depth, whether it is the start, and the node's stored functions
/// and line range.
pub open spec fn visit_of(
    v: ImpactVisit,
    nodes: Seq<NodeView>,
    e: (usize, u32),
    s: int,
    details: Seq<(Vec<String>, i64, i64)>,
) -> bool {
    let det = details[e.0 as int];
    &&& node_view(v.node) == nodes[e.0 as int]
    &&& v.depth == e.1
    &&& v.is_start == (e.0 as int == s)
    &&& v.functions@.len() == det.0@.len()
    &&& forall|i: int| 0 <= i < det.0@.len() ==> #[trigger] v.functions@[i]@ == det.0@[i]@
    &&& v.start_line == det.1
    &&& v.end_line == det.2
}

/// The impact entry for a file at `depth` edges from the changed one, with
/// its stored functions and line range.
pub open spec fn entry_for(e: ImpactEntry, n: NodeView, depth: u32, det: (Vec<String>, i64, i64)) -> bool {
    &&& e.file_path@ == n.0
    &&& e.depth == depth
    &&& e.function_count == n.3
    &&& e.lesson_count == n.4
    &&& e.language@ == n.1
    &&& e.severity@ == impact_severity(n.0, n.4, n.3, depth)
    &&& e.reason@ == impact_reason(n.0, n.4, n.3, depth)
    &&& e.suggestion@ == impact_suggestion(e.severity@)
    &&& e.functions@.len() == det.0@.len()
    &&& forall|i: int| 0 <= i < det.0@.len() ==> #[trigger] e.functions@[i]@ == det.0@[i]@
    &&& e.start_line == det.1
    &&& e.end_line == det.2
}

/// What impact analysis reports from the walk `w` from `s`: one entry per
/// reported walk position, in order, for the file at that node.
pub open spec fn impact_from_walk(
    nodes: Seq<NodeView>,
    w: Seq<(usize, u32)>,
    s: int,
    max_depth: u32,
    details: Seq<(Vec<String>, i64, i64)>,
    r: Seq<ImpactEntry>,
) -> bool {
    let pos = walk_reported(w, s, max_depth);
    &&& r.len() == pos.len()
    &&& forall|k: int|
        0 <= k < r.len() ==> entry_for(
            #[trigger] r[k],
            nodes[w[pos[k]].0 as int],
            w[pos[k]].1,
            details[w[pos[k]].0 as int],
        )
}

/// The blast radius the reported positions of a walk stand for: each is a
/// node other than the start, at its distance from the start, between 1 and
/// `max_depth`; no node twice; and every node at such a distance among them.
pub open spec fn impact_covers(edges: Seq<(int, int)>, w: Seq<(usize, u32)>, s: int, max_depth: u32) -> bool {
    let pos = walk_reported(w, s, max_depth);
    &&& forall|k: int|
        0 <= k < pos.len() ==> {
            let e = w[#[trigger] pos[k]];
            &&& e.0 as int != s
            &&& 1 <= e.1 <= max_depth
            &&& distance(edges, s, e.0 as int, e.1 as int)
        }
    &&& forall|k1: int, k2: int|
        0 <= k1 < k2 < pos.len() ==> w[#[trigger] pos[k1]].0 != w[#[trigger] pos[k2]].0
    &&& forall|v: int, d: int|
        #[trigger] distance(edges, s, v, d) && 1 <= d <= max_depth ==> exists|k: int|
            0 <= k < pos.len() && #[trigger] w[pos[k]].0 as int == v
}

/// No two files of the graph share a path.
pub open spec fn paths_distinct(nodes: Seq<NodeView>) -> bool {
    forall|i: int, j: int| 0 <= i < j < nodes.len() ==> #[trigger] nodes[i].0 != #[trigger] nodes[j].0
}

/// Impact analysis names each file at most once and never the changed file
/// itself: where no two files of the graph share a path, the entries it
/// reports from a walk over the graph's nodes have pairwise different paths,
/// none of them the start's.
pub proof fn lemma_impact_paths_distinct(
    nodes: Seq<NodeView>,
    edges: Seq<(int, int)>,
    w: Seq<(usize, u32)>,
    s: int,
    max_depth: u32,
    details: Seq<(Vec<String>, i64, i64)>,
    r: Seq<ImpactEntry>,
)
    requires
        paths_distinct(nodes),
        0 <= s < nodes.len(),
        forall|i: int| 0 <= i < w.len() ==> #[trigger] w[i].0 < nodes.len(),
        impact_from_walk(nodes, w, s, max_depth, details, r),
        impact_covers(edges, w, s, max_depth),
    ensures
        forall|k1: int, k2: int|
            0 <= k1 < k2 < r.len() ==> #[trigger] r[k1].file_path@ != #[trigger] r[k2].file_path@,
        forall|k: int| 0 <= k < r.len() ==> #[trigger] r[k].file_path@ != nodes[s].0,
{
    let pos = walk_reported(w, s, max_depth);
    lemma_walk_reported(w, s, max_depth);
    assert forall|k1: int, k2: int| 0 <= k1 < k2 < r.len() implies #[trigger] r[k1].file_path@
        != #[trigger] r[k2].file_path@ by {
        let a = w[pos[k1]].0 as int;
        let b = w[pos[k2]].0 as int;
        assert(entry_for(r[k1], nodes[a], w[pos[k1]].1, details[a]));
        assert(entry_for(r[k2], nodes[b], w[pos[k2]].1, details[b]));
        assert(w[pos[k1]].0 != w[pos[k2]].0);
        assert(w[pos[k1]].0 < nodes.len() && w[pos[k2]].0 < nodes.len());
        if a < b {
            assert(nodes[a].0 != nodes[b].0);
        } else {
            assert(nodes[b].0 != nodes[a].0);
        }
    }
    assert forall|k: int| 0 <= k < r.len() implies #[trigger] r[k].file_path@ != nodes[s].0 by {
        let a = w[pos[k]].0 as int;
        assert(entry_for(r[k], nodes[a], w[pos[k]].1, details[a]));
        assert(a != s);
        assert(w[pos[k]].0 < nodes.len());
        if a < s {
            assert(nodes[a].0 != nodes[s].0);
        } else {
            assert(nodes[s].0 != nodes[a].0);
        }
    }
}

/// The positions `walk_reported` lists are increasing positions of the
/// walk, exactly those of entries other than the start within the depth.
proof fn lemma_walk_reported(w: Seq<(usize, u32)>, s: int, max_depth: u32)
    ensures
        forall|k: int|
            0 <= k < walk_reported(w, s, max_depth).len() ==> 0 <= #[trigger] walk_reported(
                w,
                s,
                max_depth,
            )[k] < w.len(),
        forall|k1: int, k2: int|
            0 <= k1 < k2 < walk_reported(w, s, max_depth).len() ==> #[trigger] walk_reported(
                w,
                s,
                max_depth,
            )[k1] < #[trigger] walk_reported(w, s, max_depth)[k2],
        forall|i: int|
            0 <= i < w.len() ==> ((w[i].0 as int != s && w[i].1 <= max_depth) <==> exists|k: int|
                0 <= k < walk_reported(w, s, max_depth).len() && #[trigger] walk_reported(
                    w,
                    s,
                    max_depth,
                )[k] == i),
    decreases w.len(),
{
    if w.len() > 0 {
        let rest = w.drop_last();
        lemma_walk_reported(rest, s, max_depth);
        let p = walk_reported(w, s, max_depth);
        let q = walk_reported(rest, s, max_depth);
        assert forall|i: int| 0 <= i < rest.len() implies rest[i] == w[i] by {}
        assert forall|i: int|
            0 <= i < w.len() implies ((w[i].0 as int != s && w[i].1 <= max_depth) <==> exists|k: int|
                0 <= k < p.len() && #[trigger] p[k] == i) by {
            if i < rest.len() {
                assert(rest[i] == w[i]);
                if exists|k: int| 0 <= k < q.len() && #[trigger] q[k] == i {
                    let k = choose|k: int| 0 <= k < q.len() && #[trigger] q[k] == i;
                    assert(p[k] == q[k]);
                }
                if exists|k: int| 0 <= k < p.len() && #[trigger] p[k] == i {
                    let k = choose|k: int| 0 <= k < p.len() && #[trigger] p[k] == i;
                    if k < q.len() {
                        assert(p[k] == q[k]);
                    }
                }
            } else {
                if w[i].0 as int != s && w[i].1 <= max_depth {
                    assert(p[q.len() as int] == i);
                }
                if exists|k: int| 0 <= k < p.len() && #[trigger] p[k] == i {
                    let k = choose|k: int| 0 <= k < p.len() && #[trigger] p[k] == i;
                    if k < q.len() {
                        assert(p[k] == q[k]);
                    }
                }
            }
        }
    }
}

/// The visits built from a walk are reported at the walk's reported
/// positions.
proof fn lemma_reported_positions(
    visits: Seq<ImpactVisit>,
    w: Seq<(usize, u32)>,
    s: int,
    max_depth: u32,
    nodes: Seq<NodeView>,
    details: Seq<(Vec<String>, i64, i64)>,
)
    requires
        visits.len() == w.len(),
        forall|j: int| 0 <= j < w.len() ==> visit_of(#[trigger] visits[j], nodes, w[j], s, details),
    ensures
        reported_at(visits, max_depth) == walk_reported(w, s, max_depth),
    decreases w.len(),
{
    if w.len() > 0 {
        let vs = visits.drop_last();
        let ws = w.drop_last();
        assert forall|j: int| 0 <= j < ws.len() implies visit_of(#[trigger] vs[j], nodes, ws[j], s, details) by {
            assert(vs[j] == visits[j] && ws[j] == w[j]);
        }
        lemma_reported_positions(vs, ws, s, max_depth, nodes, details);
        assert(visit_of(visits[w.len() - 1], nodes, w[w.len() - 1], s, details));
    }
}

/// The reported positions of a breadth-first walk are its blast radius.
proof fn lemma_impact_covers(edges: Seq<(int, int)>, w: Seq<(usize, u32)>, s: int, max_depth: u32)
    requires
        breadth_first_walk(edges, s, w),
    ensures
        impact_covers(edges, w, s, max_depth),
{
    lemma_walk_reported(w, s, max_depth);
    let pos = walk_reported(w, s, max_depth);
    let o = visit_order(w);
    assert forall|k: int| 0 <= k < pos.len() implies {
        let e = w[#[trigger] pos[k]];
        &&& e.0 as int != s
        &&& 1 <= e.1 <= max_depth
        &&& distance(edges, s, e.0 as int, e.1 as int)
    } by {
        let i = pos[k];
        assert(distance(edges, s, w[i].0 as int, w[i].1 as int));
        if w[i].1 == 0 {
            lemma_reach_zero(edges, s, w[i].0 as int);
        }
    }
    assert forall|k1: int, k2: int|
        0 <= k1 < k2 < pos.len() implies w[#[trigger] pos[k1]].0 != w[#[trigger] pos[k2]].0 by {
        assert(o[pos[k1]] == w[pos[k1]].0 as int && o[pos[k2]] == w[pos[k2]].0 as int);
    }
    assert forall|v: int, d: int|
        #[trigger] distance(edges, s, v, d) && 1 <= d <= max_depth implies exists|k: int|
            0 <= k < pos.len() && #[trigger] w[pos[k]].0 as int == v by {
        assert(reachable(edges, s, v));
        assert(o.contains(v));
        let i = choose|i: int| 0 <= i < o.len() && o[i] == v;
        assert(w[i].0 as int == v);
        assert(distance(edges, s, w[i].0 as int, w[i].1 as int));
        if (w[i].1 as int) < d {
            assert(reaches_in(edges, s, v, w[i].1 as int));
        }
        if d < (w[i].1 as int) {
            assert(reaches_in(edges, s, v, d));
        }
        if v == s {
            lemma_reach_start(edges, s);
            assert(reaches_in(edges, s, v, 0));
        }
        let k = choose|k: int| 0 <= k < pos.len() && #[trigger] pos[k] == i;
        assert(w[pos[k]].0 as int == v);
    }
}

/// `have`, then the path of the origin of each edge into `a` (in edge
/// order) that is not listed yet.
pub open spec fn add_sources(
    paths: Seq<Seq<char>>,
    edges: Seq<(int, int)>,
    a: int,
    have: Seq<Seq<char>>,
) -> Seq<Seq<char>>
    decreases edges.len(),
{
    if edges.len() == 0 {
        have
    } else {
        let prev = add_sources(paths, edges.drop_last(), a, have);
        let e = edges.last();
        if e.1 == a && !prev.contains(paths[e.0]) {
            prev.push(paths[e.0])
        } else {
            prev
        }
    }
}

/// The files a file's neighbours in the graph are: the destinations of its
/// edges (most recent first), then the origins of the edges into it not
/// listed yet; none for a file not in the graph.
pub open spec fn graph_neighbors(
    paths: Seq<Seq<char>>,
    edges: Seq<(int, int)>,
    at: Option<int>,
) -> Seq<Seq<char>> {
    match at {
        Some(i) => add_sources(
            paths,
            edges,
            i,
            out_neighbors(edges, i).map_values(|j: int| paths[j]),
        ),
        None => Seq::empty(),
    }
}

/// A path counts as nearby: it is the path of its node in the index (each
/// path once), it is neither of the two forms of the file itself, and it
/// lies under `parent`.
pub open spec fn is_nearby(
    paths: Seq<Seq<char>>,
    i: int,
    resolved: Seq<char>,
    norm: Seq<char>,
    parent: Seq<char>,
) -> bool {
    &&& last_position(paths, paths[i]) == Some(i)
    &&& paths[i] != resolved
    &&& paths[i] != norm
    &&& has_prefix(paths[i], parent)
}

/// The first four nearby paths among the first `k` nodes, in node order;
/// none when `parent` is empty.
pub open spec fn nearby_in(
    paths: Seq<Seq<char>>,
    resolved: Seq<char>,
    norm: Seq<char>,
    parent: Seq<char>,
    k: int,
) -> Seq<Seq<char>>
    decreases k,
{
    if k <= 0 || parent.len() == 0 {
        Seq::empty()
    } else {
        let prev = nearby_in(paths, resolved, norm, parent, k - 1);
        if prev.len() < 4 && is_nearby(paths, k - 1, resolved, norm, parent) {
            prev.push(paths[k - 1])
        } else {
            prev
        }
    }
}

/// Whether a list of strings holds a text.
fn contains_text(list: &Vec<String>, s: &str) -> (r: bool)
    ensures
        r == names_of_nodes(list@).contains(s@),
{
    let mut k: usize = 0;
    while k < list.len()
        invariant
            k <= list@.len(),
            forall|m: int| 0 <= m < k ==> list@[m]@ != s@,
        decreases list@.len() - k,
    {
        if str_eq(list[k].as_str(), s) {
            assert(names_of_nodes(list@)[k as int] == s@);
            return true;
        }
        k += 1;
    }
    proof {
        if names_of_nodes(list@).contains(s@) {
            let m = choose|m: int| 0 <= m < names_of_nodes(list@).len() && names_of_nodes(list@)[m] == s@;
            assert(list@[m]@ == s@);
        }
    }
    false
}

/// Once four paths are listed, later nodes add none.
proof fn lemma_nearby_full(
    paths: Seq<Seq<char>>,
    resolved: Seq<char>,
    norm: Seq<char>,
    parent: Seq<char>,
    i: int,
    k: int,
)
    requires
        0 <= i <= k,
        i == k || nearby_in(paths, resolved, norm, parent, i).len() >= 4,
    ensures
        nearby_in(paths, resolved, norm, parent, k) == nearby_in(paths, resolved, norm, parent, i),
    decreases k - i,
{
    if i < k {
        lemma_nearby_full(paths, resolved, norm, parent, i, k - 1);
    }
}

/// A found position lies in the sequence and holds the key.
proof fn lemma_last_position_in(paths: Seq<Seq<char>>, key: Seq<char>)
    ensures
        last_position(paths, key) matches Some(i) ==> 0 <= i < paths.len() && paths[i] == key,
    decreases paths.len(),
{
    if paths.len() > 0 && paths.last() != key {
        lemma_last_position_in(paths.drop_last(), key);
    }
}

/// The node a file stands for lies in the graph.
proof fn lemma_located_in(paths: Seq<Seq<char>>, file_path: Seq<char>, resolved: Seq<char>)
    ensures
        located(paths, file_path, resolved) matches Some(i) ==> 0 <= i < paths.len(),
{
    lemma_last_position_in(paths, resolved);
    lemma_last_position_in(paths, normalized(file_path));
    lemma_last_position_in(paths, file_path);
}

/// The neighbours of a node lie in the graph.
pub(crate) proof fn lemma_out_neighbors_within(edges: Seq<(int, int)>, n: int, a: int)
    requires
        edges_within(edges, n),
    ensures
        forall|k: int|
            0 <= k < out_neighbors(edges, a).len() ==> 0 <= #[trigger] out_neighbors(edges, a)[k]
                < n,
    decreases edges.len(),
{
    if edges.len() > 0 {
        let rest = edges.drop_last();
        assert(edges_within(rest, n)) by {
            assert forall|i: int| 0 <= i < rest.len() implies 0 <= #[trigger] rest[i].0 < n && 0
                <= rest[i].1 < n by {
                assert(rest[i] == edges[i]);
            }
        }
        lemma_out_neighbors_within(rest, n, a);
        assert(edges.last() == edges[edges.len() - 1]);
        let r = out_neighbors(edges, a);
        let t = out_neighbors(rest, a);
        assert forall|k: int| 0 <= k < r.len() implies 0 <= #[trigger] r[k] < n by {
            if r.len() > t.len() && k > 0 {
                assert(r[k] == t[k - 1]);
            }
        }
    }
}

proof fn lemma_in_neighbors_within(edges: Seq<(int, int)>, n: int, a: int)
    requires
        edges_within(edges, n),
    ensures
        forall|k: int|
            0 <= k < in_neighbors(edges, a).len() ==> 0 <= #[trigger] in_neighbors(edges, a)[k]
                < n,
    decreases edges.len(),
{
    if edges.len() > 0 {
        let rest = edges.drop_last();
        assert(edges_within(rest, n)) by {
            assert forall|i: int| 0 <= i < rest.len() implies 0 <= #[trigger] rest[i].0 < n && 0
                <= rest[i].1 < n by {
                assert(rest[i] == edges[i]);
            }
        }
        lemma_in_neighbors_within(rest, n, a);
        assert(edges.last() == edges[edges.len() - 1]);
        let r = in_neighbors(edges, a);
        let t = in_neighbors(rest, a);
        assert forall|k: int| 0 <= k < r.len() implies 0 <= #[trigger] r[k] < n by {
            if r.len() > t.len() && k > 0 {
                assert(r[k] == t[k - 1]);
            }
        }
    }
}

/// A copy of a file node.
fn copy_node(n: &FileNode) -> (r: FileNode)
    ensures
        node_view(r) == node_view(*n),
{
    FileNode {
        path: n.path.clone(),
        language: n.language.clone(),
        strategy: n.strategy.clone(),
        function_count: n.function_count,
        lesson_count: n.lesson_count,
    }
}

} // verus!
