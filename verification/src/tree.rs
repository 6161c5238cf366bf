//! The dependency tree and the impact trace of a file, rendered as the lines
//! the CLI prints.

use vstd::prelude::*;
use crate::digest::{decimal_of_i64, signed_decimal};
use crate::text::{push_all, push_str, str_eq, to_upper, upper_of};

verus! {

broadcast use vstd::string::group_string_axioms;

/// A function or class the index found in a file.
#[derive(Debug, Clone)]
pub struct StoredFunction {
    pub name: String,
    pub kind: String,
    pub start_line: i64,
    pub end_line: i64,
    pub strategy: String,
}

/// What the index knows of a file.
#[derive(Debug, Clone)]
pub struct FileGraphContext {
    pub file_path: String,
    pub language: String,
    pub functions: Vec<StoredFunction>,
}

/// A file of a dependency tree, with the files below it.
#[derive(Debug)]
pub struct TreeNode {
    pub path: String,
    pub context: Option<FileGraphContext>,
    pub functions: Vec<StoredFunction>,
    pub dependencies: Vec<TreeNode>,
    pub truncated: bool,
    pub cyclic: bool,
}

/// Which listing a tree is rendered as.
#[derive(Clone, Copy, PartialEq, Eq, Structural)]
pub enum TreeKind {
    /// The files a file depends on.
    Dependencies,
    /// The files that depend on a file.
    Trace,
}

/// The branch drawn before the last child, or before any other.
pub open spec fn branch(is_last: bool) -> Seq<char> {
    if is_last {
        "└──"@
    } else {
        "├──"@
    }
}

/// The label of a child file.
pub open spec fn edge_label(kind: TreeKind) -> Seq<char> {
    match kind {
        TreeKind::Dependencies => " [DEPENDS_ON] File: "@,
        TreeKind::Trace => " [IMPACTED_BY] File: "@,
    }
}

/// The first line of a rendering.
pub open spec fn root_line(kind: TreeKind, path: Seq<char>) -> Seq<char> {
    match kind {
        TreeKind::Dependencies => "File: "@ + path,
        TreeKind::Trace => "File: "@ + path + " (Target)"@,
    }
}

/// The heading of the list of related files.
pub open spec fn related_heading(kind: TreeKind) -> Seq<char> {
    match kind {
        TreeKind::Dependencies => "└── Dependencies"@,
        TreeKind::Trace => "└── Incoming Dependencies"@,
    }
}

/// The line of one function.
pub open spec fn function_line(prefix: Seq<char>, is_last: bool, f: StoredFunction) -> Seq<char> {
    prefix + branch(is_last) + " [MEMBER: "@ + upper_of(f.kind@) + "] "@ + f.name@ + " (lines "@
        + signed_decimal(f.start_line as int) + "-"@ + signed_decimal(f.end_line as int)
        + ") via "@ + f.strategy@
}

/// The lines of the functions `fs[i..]` of a list of `n` functions.
pub open spec fn function_lines(prefix: Seq<char>, fs: Seq<StoredFunction>, i: int) -> Seq<
    Seq<char>,
>
    decreases fs.len() - i,
{
    if i < 0 || i >= fs.len() {
        Seq::empty()
    } else {
        seq![function_line(prefix, i + 1 == fs.len(), fs[i])] + function_lines(prefix, fs, i + 1)
    }
}

/// The prefix of the lines below a node.
pub open spec fn next_prefix(prefix: Seq<char>, is_last: bool, is_root: bool) -> Seq<char> {
    if is_root {
        Seq::empty()
    } else if is_last {
        prefix + "    "@
    } else {
        prefix + "│   "@
    }
}

/// The first line of a node that is not an already-listed repeat.
pub open spec fn head_line(node: TreeNode, prefix: Seq<char>, is_last: bool, is_root: bool, kind: TreeKind) -> Seq<char> {
    if is_root {
        root_line(kind, node.path@)
    } else {
        prefix + branch(is_last) + edge_label(kind) + node.path@
    }
}

/// The node lists related files, or says that the depth limit cut them.
pub open spec fn has_related(node: TreeNode) -> bool {
    node.dependencies@.len() > 0 || node.truncated
}

/// The lines of a node's functions, under the `Functions` heading.
pub open spec fn function_block(node: TreeNode, next: Seq<char>) -> Seq<Seq<char>> {
    let fn_prefix = next + (if has_related(node) {
        "│   "@
    } else {
        "    "@
    });
    if node.functions@.len() == 0 {
        seq![fn_prefix + "└── (none)"@]
    } else {
        function_lines(fn_prefix, node.functions@, 0)
    }
}

/// The lines below a node's related-files heading.
pub open spec fn related_block(node: TreeNode, next: Seq<char>, kind: TreeKind) -> Seq<Seq<char>>
    decreases node, 1int, 0int,
{
    let rel_prefix = next + "    "@;
    if node.cyclic {
        seq![rel_prefix + "└── (cycle)"@]
    } else if node.truncated {
        seq![rel_prefix + "└── (depth limit reached)"@]
    } else if node.dependencies@.len() == 0 {
        seq![rel_prefix + "└── (none)"@]
    } else {
        child_lines(node, 0, rel_prefix, kind)
    }
}

/// The lines that render `node`, drawn below `prefix`.
pub open spec fn node_lines(
    node: TreeNode,
    prefix: Seq<char>,
    is_last: bool,
    is_root: bool,
    kind: TreeKind,
) -> Seq<Seq<char>>
    decreases node, 2int, 0int,
{
    if !is_root && node.cyclic {
        seq![prefix + branch(is_last) + edge_label(kind) + node.path@ + " (already listed)"@]
    } else {
        let next = next_prefix(prefix, is_last, is_root);
        seq![
            head_line(node, prefix, is_last, is_root, kind),
            next + branch(!has_related(node)) + " Functions"@,
        ] + function_block(node, next) + seq![next + related_heading(kind)] + related_block(
            node,
            next,
            kind,
        )
    }
}

/// The lines that render the children `parent.dependencies[i..]`.
pub open spec fn child_lines(parent: TreeNode, i: int, prefix: Seq<char>, kind: TreeKind) -> Seq<
    Seq<char>,
>
    decreases parent, 0int, parent.dependencies@.len() - i,
{
    if i < 0 || i >= parent.dependencies@.len() {
        Seq::empty()
    } else {
        node_lines(
            parent.dependencies@[i],
            prefix,
            i + 1 == parent.dependencies@.len(),
            false,
            kind,
        ) + child_lines(parent, i + 1, prefix, kind)
    }
}

/// The text of each string, in order.
pub open spec fn line_texts(v: Seq<String>) -> Seq<Seq<char>> {
    v.map_values(|s: String| s@)
}

/// A `String` holding `a` then `b`.
fn concat(a: &str, b: &str) -> (r: String)
    ensures
        r@ == a@ + b@,
{
    let mut r = a.to_owned();
    push_str(&mut r, b);
    r
}

fn branch_text(is_last: bool) -> (r: &'static str)
    ensures
        r@ == branch(is_last),
{
    if is_last {
        "└──"
    } else {
        "├──"
    }
}

fn edge_text(kind: TreeKind) -> (r: &'static str)
    ensures
        r@ == edge_label(kind),
{
    match kind {
        TreeKind::Dependencies => " [DEPENDS_ON] File: ",
        TreeKind::Trace => " [IMPACTED_BY] File: ",
    }
}

/// Appends every line of `more` to `out`.
fn append_lines(out: &mut Vec<String>, more: Vec<String>)
    ensures
        line_texts(final(out)@) == line_texts(old(out)@) + line_texts(more@),
{
    let mut i: usize = 0;
    let ghost start = line_texts(out@);
    while i < more.len()
        invariant
            i <= more@.len(),
            line_texts(out@) == start + line_texts(more@).take(i as int),
        decreases more@.len() - i,
    {
        let s = more[i].clone();
        proof {
            assert(line_texts(out@.push(s)) =~= line_texts(out@).push(s@));
            assert(line_texts(more@).take(i + 1) =~= line_texts(more@).take(i as int).push(
                more@[i as int]@,
            ));
        }
        out.push(s);
        i += 1;
    }
    assert(line_texts(more@).take(i as int) =~= line_texts(more@));
}

/// Appends one line to `out`.
fn push_line(out: &mut Vec<String>, line: String)
    ensures
        line_texts(final(out)@) == line_texts(old(out)@).push(line@),
{
    let ghost l = line@;
    out.push(line);
    assert(line_texts(out@) =~= line_texts(old(out)@).push(l));
}

/// The line of one function.
fn render_function(prefix: &str, is_last: bool, f: &StoredFunction) -> (r: String)
    ensures
        r@ == function_line(prefix@, is_last, *f),
{
    let mut r = prefix.to_owned();
    push_str(&mut r, branch_text(is_last));
    push_str(&mut r, " [MEMBER: ");
    let up = to_upper(f.kind.as_str());
    push_str(&mut r, up.as_str());
    push_str(&mut r, "] ");
    push_str(&mut r, f.name.as_str());
    push_str(&mut r, " (lines ");
    push_all(&mut r, &decimal_of_i64(f.start_line));
    push_str(&mut r, "-");
    push_all(&mut r, &decimal_of_i64(f.end_line));
    push_str(&mut r, ") via ");
    push_str(&mut r, f.strategy.as_str());
    assert(r@ =~= function_line(prefix@, is_last, *f));
    r
}

/// The lines of all functions of a list.
fn render_functions(prefix: &str, fs: &Vec<StoredFunction>) -> (r: Vec<String>)
    ensures
        line_texts(r@) == function_lines(prefix@, fs@, 0),
{
    let mut r: Vec<String> = Vec::new();
    let mut i: usize = 0;
    while i < fs.len()
        invariant
            i <= fs@.len(),
            line_texts(r@) + function_lines(prefix@, fs@, i as int) == function_lines(
                prefix@,
                fs@,
                0,
            ),
        decreases fs@.len() - i,
    {
        let l = render_function(prefix, i + 1 == fs.len(), &fs[i]);
        proof {
            let rest = function_lines(prefix@, fs@, i + 1);
            assert(function_lines(prefix@, fs@, i as int) == seq![l@] + rest);
            assert(line_texts(r@).push(l@) + rest =~= line_texts(r@) + (seq![l@] + rest));
        }
        push_line(&mut r, l);
        i += 1;
    }
    assert(line_texts(r@) + function_lines(prefix@, fs@, i as int) =~= line_texts(r@));
    r
}

/// The first line of a node.
fn render_head(node: &TreeNode, prefix: &str, is_last: bool, is_root: bool, kind: TreeKind) -> (r: String)
    ensures
        r@ == head_line(*node, prefix@, is_last, is_root, kind),
{
    if is_root {
        match kind {
            TreeKind::Dependencies => concat("File: ", node.path.as_str()),
            TreeKind::Trace => {
                let mut h = concat("File: ", node.path.as_str());
                push_str(&mut h, " (Target)");
                h
            },
        }
    } else {
        let mut h = prefix.to_owned();
        push_str(&mut h, branch_text(is_last));
        push_str(&mut h, edge_text(kind));
        push_str(&mut h, node.path.as_str());
        h
    }
}

/// The lines of a node's functions.
fn render_function_block(node: &TreeNode, next: &str) -> (r: Vec<String>)
    ensures
        line_texts(r@) == function_block(*node, next@),
{
    let related = node.dependencies.len() > 0 || node.truncated;
    let fn_prefix = if related {
        concat(next, "│   ")
    } else {
        concat(next, "    ")
    };
    if node.functions.len() == 0 {
        let mut out: Vec<String> = Vec::new();
        push_line(&mut out, concat(fn_prefix.as_str(), "└── (none)"));
        assert(line_texts(out@) =~= function_block(*node, next@));
        out
    } else {
        render_functions(fn_prefix.as_str(), &node.functions)
    }
}

/// The lines below a node's related-files heading.
fn render_related(node: &TreeNode, next: &str, kind: TreeKind) -> (r: Vec<String>)
    ensures
        line_texts(r@) == related_block(*node, next@, kind),
    decreases *node, 1int, 0int,
{
    let rel_prefix = concat(next, "    ");
    let mut out: Vec<String> = Vec::new();
    if node.cyclic {
        push_line(&mut out, concat(rel_prefix.as_str(), "└── (cycle)"));
    } else if node.truncated {
        push_line(&mut out, concat(rel_prefix.as_str(), "└── (depth limit reached)"));
    } else if node.dependencies.len() == 0 {
        push_line(&mut out, concat(rel_prefix.as_str(), "└── (none)"));
    } else {
        return render_children(node, 0, rel_prefix.as_str(), kind);
    }
    assert(line_texts(out@) =~= related_block(*node, next@, kind));
    out
}

/// The lines that render `node` below `prefix` (see `node_lines`).
fn render_node(node: &TreeNode, prefix: &str, is_last: bool, is_root: bool, kind: TreeKind) -> (r:
    Vec<String>)
    ensures
        line_texts(r@) == node_lines(*node, prefix@, is_last, is_root, kind),
    decreases *node, 2int, 0int,
{
    let mut out: Vec<String> = Vec::new();
    if !is_root && node.cyclic {
        let mut l = prefix.to_owned();
        push_str(&mut l, branch_text(is_last));
        push_str(&mut l, edge_text(kind));
        push_str(&mut l, node.path.as_str());
        push_str(&mut l, " (already listed)");
        push_line(&mut out, l);
        assert(line_texts(out@) =~= node_lines(*node, prefix@, is_last, is_root, kind));
        return out;
    }
    let next = if is_root {
        String::new()
    } else if is_last {
        concat(prefix, "    ")
    } else {
        concat(prefix, "│   ")
    };
    let related = node.dependencies.len() > 0 || node.truncated;
    let mut fn_head = next.clone();
    push_str(&mut fn_head, branch_text(!related));
    push_str(&mut fn_head, " Functions");
    let heading = match kind {
        TreeKind::Dependencies => concat(next.as_str(), "└── Dependencies"),
        TreeKind::Trace => concat(next.as_str(), "└── Incoming Dependencies"),
    };
    let ghost nx = next@;
    push_line(&mut out, render_head(node, prefix, is_last, is_root, kind));
    push_line(&mut out, fn_head);
    append_lines(&mut out, render_function_block(node, next.as_str()));
    push_line(&mut out, heading);
    append_lines(&mut out, render_related(node, next.as_str(), kind));
    proof {
        assert(nx == next_prefix(prefix@, is_last, is_root));
    }
    assert(line_texts(out@) =~= node_lines(*node, prefix@, is_last, is_root, kind));
    out
}

/// The lines that render the children `parent.dependencies[i..]`.
fn render_children(parent: &TreeNode, i: usize, prefix: &str, kind: TreeKind) -> (r: Vec<String>)
    ensures
        line_texts(r@) == child_lines(*parent, i as int, prefix@, kind),
    decreases *parent, 0int, parent.dependencies@.len() - i,
{
    if i >= parent.dependencies.len() {
        return Vec::new();
    }
    let mut out = render_node(
        &parent.dependencies[i],
        prefix,
        i + 1 == parent.dependencies.len(),
        false,
        kind,
    );
    let rest = render_children(parent, i + 1, prefix, kind);
    append_lines(&mut out, rest);
    out
}

/// The lines that print the dependency tree of a file (its root `node`,
/// drawn as the root when `is_root`, else below `prefix` as the last child
/// or not).
pub fn render_tree_node(node: &TreeNode, prefix: &str, is_last: bool, is_root: bool) -> (r: Vec<
    String,
>)
    ensures
        line_texts(r@) == node_lines(*node, prefix@, is_last, is_root, TreeKind::Dependencies),
{
    render_node(node, prefix, is_last, is_root, TreeKind::Dependencies)
}

/// The lines that print the impact trace of a file (the files that depend on
/// it, recursively), drawn as `render_tree_node` draws a dependency tree.
pub fn render_trace_node(node: &TreeNode, prefix: &str, is_last: bool, is_root: bool) -> (r: Vec<
    String,
>)
    ensures
        line_texts(r@) == node_lines(*node, prefix@, is_last, is_root, TreeKind::Trace),
{
    render_node(node, prefix, is_last, is_root, TreeKind::Trace)
}

/// A stored function as plain values.
pub open spec fn function_view(f: StoredFunction) -> (Seq<char>, Seq<char>, i64, i64, Seq<char>) {
    (f.name@, f.kind@, f.start_line, f.end_line, f.strategy@)
}

/// Stored functions as plain values.
pub open spec fn functions_view(fs: Seq<StoredFunction>) -> Seq<(Seq<char>, Seq<char>, i64, i64, Seq<char>)> {
    fs.map_values(|f: StoredFunction| function_view(f))
}

/// What the index knows of a file, as plain values (path, language,
/// functions).
pub open spec fn context_view(c: Option<FileGraphContext>) -> Option<
    (Seq<char>, Seq<char>, Seq<(Seq<char>, Seq<char>, i64, i64, Seq<char>)>),
> {
    match c {
        Some(c) => Some((c.file_path@, c.language@, functions_view(c.functions@))),
        None => None,
    }
}

fn copy_functions(v: &Vec<StoredFunction>) -> (r: Vec<StoredFunction>)
    ensures
        functions_view(r@) == functions_view(v@),
{
    let mut r: Vec<StoredFunction> = Vec::new();
    let mut i: usize = 0;
    while i < v.len()
        invariant
            i <= v@.len(),
            functions_view(r@) == functions_view(v@.take(i as int)),
        decreases v@.len() - i,
    {
        let f = &v[i];
        let c = StoredFunction {
            name: f.name.clone(),
            kind: f.kind.clone(),
            start_line: f.start_line,
            end_line: f.end_line,
            strategy: f.strategy.clone(),
        };
        proof {
            assert(functions_view(r@.push(c)) =~= functions_view(r@).push(function_view(c)));
            assert(functions_view(v@.take(i + 1)) =~= functions_view(v@.take(i as int)).push(
                function_view(v@[i as int]),
            ));
        }
        r.push(c);
        i += 1;
    }
    assert(v@.take(i as int) =~= v@);
    r
}

fn copy_context(c: &Option<FileGraphContext>) -> (r: Option<FileGraphContext>)
    ensures
        context_view(r) == context_view(*c),
{
    match c {
        Some(c) => Some(
            FileGraphContext {
                file_path: c.file_path.clone(),
                language: c.language.clone(),
                functions: copy_functions(&c.functions),
            },
        ),
        None => None,
    }
}

/// What the index holds of one file for a tree or a trace: what it knows of
/// the file (`None` when the file is not indexed) and the files it is
/// related to (those it depends on for a tree, those that depend on it for a
/// trace), in the order the index lists them.
#[derive(Debug, Clone)]
pub struct GraphEntry {
    pub path: String,
    pub context: Option<FileGraphContext>,
    pub related: Vec<String>,
}

/// The first entry of `g[i..]` for the file `p`, by index.
pub open spec fn entry_of(g: Seq<GraphEntry>, p: Seq<char>, i: int) -> Option<int>
    decreases g.len() - i,
{
    if i < 0 || i >= g.len() {
        None
    } else if g[i].path@ == p {
        Some(i)
    } else {
        entry_of(g, p, i + 1)
    }
}

/// What the index knows of the file `p`.
pub open spec fn context_at(g: Seq<GraphEntry>, p: Seq<char>) -> Option<
    (Seq<char>, Seq<char>, Seq<(Seq<char>, Seq<char>, i64, i64, Seq<char>)>),
> {
    match entry_of(g, p, 0) {
        Some(i) => context_view(g[i].context),
        None => None,
    }
}

/// The functions the index knows of the file `p`.
pub open spec fn functions_at(g: Seq<GraphEntry>, p: Seq<char>) -> Seq<(Seq<char>, Seq<char>, i64, i64, Seq<char>)> {
    match context_at(g, p) {
        Some(c) => c.2,
        None => Seq::empty(),
    }
}

/// The files related to the file `p`.
pub open spec fn related_at(g: Seq<GraphEntry>, p: Seq<char>) -> Seq<Seq<char>> {
    match entry_of(g, p, 0) {
        Some(i) => g[i].related@.map_values(|s: String| s@),
        None => Seq::empty(),
    }
}

/// The files listed once loading `p` with `depth` levels left is done,
/// starting from the files listed in `vis`.
pub open spec fn visit_after(g: Seq<GraphEntry>, p: Seq<char>, depth: nat, vis: Set<Seq<char>>) -> Set<Seq<char>>
    decreases depth, 1int, 0int,
{
    if vis.contains(p) || depth == 0 {
        vis.insert(p)
    } else {
        visits_before(g, related_at(g, p), related_at(g, p).len() as int, (depth - 1) as nat, vis.insert(p))
    }
}

/// The files listed before the `j`-th of the related files `rel` is loaded
/// (each with `depth` levels left), starting from `vis`.
pub open spec fn visits_before(
    g: Seq<GraphEntry>,
    rel: Seq<Seq<char>>,
    j: int,
    depth: nat,
    vis: Set<Seq<char>>,
) -> Set<Seq<char>>
    decreases depth + 1, 0int, j,
{
    if j <= 0 || j > rel.len() {
        vis
    } else {
        let v = visits_before(g, rel, j - 1, depth, vis);
        if v.contains(rel[j - 1]) {
            v
        } else {
            visit_after(g, rel[j - 1], depth, v)
        }
    }
}

/// `k` is the entry shown for a related file `q` that was already listed:
/// its path and what the index knows of it, marked as a repeat, with
/// nothing below it.
pub open spec fn repeat_node(g: Seq<GraphEntry>, k: TreeNode, q: Seq<char>) -> bool {
    &&& k.path@ == q
    &&& context_view(k.context) == context_at(g, q)
    &&& k.functions@.len() == 0
    &&& k.dependencies@.len() == 0
    &&& !k.truncated
    &&& k.cyclic
}

/// `t` is the tree loaded for the file `p` with `depth` levels left, when
/// the files in `vis` were already listed: the file with what the index
/// knows of it; marked as a repeat when already listed; cut (and marked so
/// when it has related files) when no level is left; else each related file
/// in order, a repeat when already listed by then, else loaded with one
/// level less.
pub open spec fn loaded(g: Seq<GraphEntry>, t: TreeNode, p: Seq<char>, depth: nat, vis: Set<Seq<char>>) -> bool
    decreases t,
{
    let rel = related_at(g, p);
    let repeat = vis.contains(p);
    &&& t.path@ == p
    &&& context_view(t.context) == context_at(g, p)
    &&& functions_view(t.functions@) == functions_at(g, p)
    &&& t.cyclic == repeat
    &&& t.truncated == (depth == 0 && rel.len() > 0)
    &&& if repeat || depth == 0 {
        t.dependencies@.len() == 0
    } else {
        &&& t.dependencies@.len() == rel.len()
        &&& forall|j: int|
            0 <= j < rel.len() ==> {
                let v = visits_before(g, rel, j, (depth - 1) as nat, vis.insert(p));
                if v.contains(rel[j]) {
                    repeat_node(g, #[trigger] t.dependencies@[j], rel[j])
                } else {
                    loaded(g, t.dependencies@[j], rel[j], (depth - 1) as nat, v)
                }
            }
    }
}

/// The files listed so far.
pub open spec fn listed_set(v: Seq<String>) -> Set<Seq<char>> {
    v.map_values(|s: String| s@).to_set()
}

fn find_entry(g: &[GraphEntry], p: &str) -> (r: Option<usize>)
    ensures
        match r {
            Some(i) => i < g@.len() && entry_of(g@, p@, 0) == Some(i as int),
            None => entry_of(g@, p@, 0) is None,
        },
{
    let mut i: usize = 0;
    while i < g.len()
        invariant
            i <= g@.len(),
            entry_of(g@, p@, 0) == entry_of(g@, p@, i as int),
        decreases g@.len() - i,
    {
        if str_eq(g[i].path.as_str(), p) {
            return Some(i);
        }
        i += 1;
    }
    None
}

fn context_for(g: &[GraphEntry], p: &str) -> (r: Option<FileGraphContext>)
    ensures
        context_view(r) == context_at(g@, p@),
{
    match find_entry(g, p) {
        Some(i) => copy_context(&g[i].context),
        None => None,
    }
}

fn related_for(g: &[GraphEntry], p: &str) -> (r: Vec<String>)
    ensures
        r@.map_values(|s: String| s@) == related_at(g@, p@),
{
    match find_entry(g, p) {
        Some(i) => {
            let src = &g[i].related;
            let mut r: Vec<String> = Vec::new();
            let mut k: usize = 0;
            while k < src.len()
                invariant
                    k <= src@.len(),
                    r@.map_values(|s: String| s@) == src@.take(k as int).map_values(|s: String| s@),
                decreases src@.len() - k,
            {
                let s = src[k].clone();
                proof {
                    assert(r@.push(s).map_values(|s: String| s@) =~= r@.map_values(|s: String| s@).push(s@));
                    assert(src@.take(k + 1).map_values(|s: String| s@) =~= src@.take(k as int).map_values(
                        |s: String| s@,
                    ).push(src@[k as int]@));
                }
                r.push(s);
                k += 1;
            }
            assert(src@.take(k as int) =~= src@);
            r
        },
        None => {
            let r: Vec<String> = Vec::new();
            assert(r@.map_values(|s: String| s@) =~= Seq::<Seq<char>>::empty());
            r
        },
    }
}

fn is_listed(visited: &Vec<String>, p: &str) -> (r: bool)
    ensures
        r == listed_set(visited@).contains(p@),
{
    let ghost names = visited@.map_values(|s: String| s@);
    let mut i: usize = 0;
    while i < visited.len()
        invariant
            i <= visited@.len(),
            names == visited@.map_values(|s: String| s@),
            forall|j: int| 0 <= j < i ==> names[j] != p@,
        decreases visited@.len() - i,
    {
        if str_eq(visited[i].as_str(), p) {
            assert(names[i as int] == p@);
            assert(names.contains(p@));
            return true;
        }
        i += 1;
    }
    assert(!names.contains(p@));
    false
}

fn list_file(visited: &mut Vec<String>, p: &String)
    ensures
        listed_set(final(visited)@) == listed_set(old(visited)@).insert(p@),
{
    let ghost before = visited@;
    visited.push(p.clone());
    proof {
        let a = before.map_values(|s: String| s@);
        let b = visited@.map_values(|s: String| s@);
        assert(b =~= a.push(p@));
        assert forall|x: Seq<char>| #[trigger] b.contains(x) <==> (a.contains(x) || x == p@) by {
            if b.contains(x) {
                let k = choose|k: int| 0 <= k < b.len() && b[k] == x;
                if k < a.len() {
                    assert(a[k] == x);
                }
            }
            if a.contains(x) {
                let k = choose|k: int| 0 <= k < a.len() && a[k] == x;
                assert(b[k] == x);
            }
            if x == p@ {
                assert(b[a.len() as int] == x);
            }
        }
        assert(listed_set(visited@) =~= listed_set(before).insert(p@));
    }
}

fn load_node(g: &[GraphEntry], path: &String, depth: u32, visited: &mut Vec<String>) -> (t: TreeNode)
    ensures
        loaded(g@, t, path@, depth as nat, listed_set(old(visited)@)),
        listed_set(final(visited)@) == visit_after(g@, path@, depth as nat, listed_set(old(visited)@)),
    decreases depth,
{
    let ghost vis = listed_set(visited@);
    let context = context_for(g, path.as_str());
    let functions = match &context {
        Some(c) => copy_functions(&c.functions),
        None => Vec::new(),
    };
    assert(functions_view(functions@) == functions_at(g@, path@)) by {
        if context.is_none() {
            assert(functions_view(functions@) =~= Seq::empty());
        }
    }
    let related = related_for(g, path.as_str());
    let ghost rel = related@.map_values(|s: String| s@);
    let cyclic = is_listed(visited, path.as_str());
    if !cyclic {
        list_file(visited, path);
    } else {
        assert(vis.insert(path@) =~= vis);
    }
    let truncated = depth == 0 && related.len() > 0;
    let mut kids: Vec<TreeNode> = Vec::new();
    if !cyclic && depth > 0 {
        let ghost vis1 = vis.insert(path@);
        let ghost d1 = (depth - 1) as nat;
        let mut j: usize = 0;
        while j < related.len()
            invariant
                j <= related@.len(),
                rel == related@.map_values(|s: String| s@),
                rel == related_at(g@, path@),
                kids@.len() == j,
                depth > 0,
                d1 == (depth - 1) as nat,
                forall|m: int|
                    0 <= m < j ==> {
                        let v = visits_before(g@, rel, m, d1, vis1);
                        if v.contains(rel[m]) {
                            repeat_node(g@, #[trigger] kids@[m], rel[m])
                        } else {
                            loaded(g@, kids@[m], rel[m], d1, v)
                        }
                    },
                listed_set(visited@) == visits_before(g@, rel, j as int, d1, vis1),
            decreases related@.len() - j,
        {
            let q = &related[j];
            assert(q@ == rel[j as int]);
            if is_listed(visited, q.as_str()) {
                let stub = TreeNode {
                    path: q.clone(),
                    context: context_for(g, q.as_str()),
                    functions: Vec::new(),
                    dependencies: Vec::new(),
                    truncated: false,
                    cyclic: true,
                };
                kids.push(stub);
            } else {
                let kid = load_node(g, q, depth - 1, visited);
                kids.push(kid);
            }
            j += 1;
        }
    }
    TreeNode { path: path.clone(), context, functions, dependencies: kids, truncated, cyclic }
}

/// The tree loaded for `path` with `depth` levels below it: for a
/// dependency tree when `g` relates each file to the files it depends on,
/// for an impact trace when it relates each file to the files that depend
/// on it. A file met again is shown as a repeat and not expanded.
pub fn load_tree(g: &[GraphEntry], path: &str, depth: u32) -> (t: TreeNode)
    ensures
        loaded(g@, t, path@, depth as nat, Set::empty()),
{
    let mut visited: Vec<String> = Vec::new();
    assert(listed_set(visited@) =~= Set::<Seq<char>>::empty());
    let p = path.to_owned();
    load_node(g, &p, depth, &mut visited)
}

/// The number of levels of a tree: 1 for a file with nothing below it.
pub open spec fn levels(t: TreeNode) -> nat
    decreases t, 1int, 0int,
{
    1 + levels_below(t, 0)
}

/// The most levels among the trees `t.dependencies[i..]` (0 when none).
pub open spec fn levels_below(t: TreeNode, i: int) -> nat
    decreases t, 0int, t.dependencies@.len() - i,
{
    if i < 0 || i >= t.dependencies@.len() {
        0
    } else {
        let here = levels(t.dependencies@[i]);
        let rest = levels_below(t, i + 1);
        if here >= rest {
            here
        } else {
            rest
        }
    }
}

proof fn lemma_levels_below_bound(t: TreeNode, i: int, bound: nat)
    requires
        0 <= i,
        forall|j: int| i <= j < t.dependencies@.len() ==> levels(#[trigger] t.dependencies@[j]) <= bound,
    ensures
        levels_below(t, i) <= bound,
    decreases t.dependencies@.len() - i,
{
    if i < t.dependencies@.len() {
        lemma_levels_below_bound(t, i + 1, bound);
    }
}

/// A loaded tree never reaches deeper than asked: loading with `depth`
/// levels left gives at most `depth + 1` levels (the file and `depth`
/// levels of related files below it).
pub proof fn lemma_loaded_depth_limit(g: Seq<GraphEntry>, t: TreeNode, p: Seq<char>, depth: nat, vis: Set<Seq<char>>)
    requires
        loaded(g, t, p, depth, vis),
    ensures
        levels(t) <= depth + 1,
    decreases t,
{
    let rel = related_at(g, p);
    if vis.contains(p) || depth == 0 {
        assert(levels_below(t, 0) == 0);
    } else {
        let d1 = (depth - 1) as nat;
        assert forall|j: int| 0 <= j < t.dependencies@.len() implies levels(#[trigger] t.dependencies@[j]) <= depth by {
            let v = visits_before(g, rel, j, d1, vis.insert(p));
            let k = t.dependencies@[j];
            if v.contains(rel[j]) {
                assert(repeat_node(g, k, rel[j]));
                assert(levels_below(k, 0) == 0);
            } else {
                assert(loaded(g, k, rel[j], d1, v));
                lemma_loaded_depth_limit(g, k, rel[j], d1, v);
            }
        }
        lemma_levels_below_bound(t, 0, depth);
    }
}

} // verus!
