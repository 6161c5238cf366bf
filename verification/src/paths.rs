//! Paths as text.
//!
//! A path is handled through its text. Its components are the non-empty runs
//! of characters between separators, where both `/` and `\` separate (as on
//! Windows, where the tool keeps its projects), and a `.` component is dropped.

use vstd::prelude::*;
use crate::text::{
    contains, occurs_in, chars_of, has_prefix, is_ws, lower_of, starts_with, string_of, to_lower,
    char_is_ws, lines_of, split_on, strip_cr, text_lines,
};

verus! {

broadcast use vstd::string::group_string_axioms;

/// A path separator: `/`, or `\` as on Windows. Paths are read the same
/// way on every platform, so a `\` separates components on Unix too.
pub open spec fn is_sep(c: char) -> bool {
    c == '/' || c == '\\'
}

/// The text split at every separator, empty pieces included.
pub open spec fn split_pieces(s: Seq<char>) -> Seq<Seq<char>>
    decreases s.len(),
{
    if s.len() == 0 {
        seq![Seq::<char>::empty()]
    } else {
        let r = split_pieces(s.drop_last());
        if is_sep(s.last()) {
            r.push(Seq::<char>::empty())
        } else {
            r.update(r.len() - 1, r.last().push(s.last()))
        }
    }
}

/// A piece that names a component: non-empty and not `.`.
pub open spec fn is_component(p: Seq<char>) -> bool {
    p.len() > 0 && p != seq!['.']
}

/// The pieces that name components, in order.
pub open spec fn keep_components(ps: Seq<Seq<char>>) -> Seq<Seq<char>>
    decreases ps.len(),
{
    if ps.len() == 0 {
        Seq::empty()
    } else {
        let r = keep_components(ps.drop_last());
        if is_component(ps.last()) {
            r.push(ps.last())
        } else {
            r
        }
    }
}

/// The components of a path: the pieces between separators (`is_sep`),
/// without empty pieces and `.`; a root or a drive prefix is not told
/// apart from the other pieces.
pub open spec fn components(s: Seq<char>) -> Seq<Seq<char>> {
    keep_components(split_pieces(s))
}

proof fn lemma_split_pieces_nonempty(s: Seq<char>)
    ensures
        split_pieces(s).len() >= 1,
    decreases s.len(),
{
    if s.len() > 0 {
        lemma_split_pieces_nonempty(s.drop_last());
    }
}

proof fn lemma_keep_push(ps: Seq<Seq<char>>, p: Seq<char>)
    ensures
        keep_components(ps.push(p)) == if is_component(p) {
            keep_components(ps).push(p)
        } else {
            keep_components(ps)
        },
{
    assert(ps.push(p).drop_last() =~= ps);
}

/// The components of `s`, each as its own vector of characters.
pub fn components_of(s: &Vec<char>) -> (r: Vec<Vec<char>>)
    ensures
        r@.len() == components(s@).len(),
        forall|i: int| 0 <= i < r@.len() ==> #[trigger] r@[i]@ == components(s@)[i],
{
    let mut done: Vec<Vec<char>> = Vec::new();
    let mut cur: Vec<char> = Vec::new();
    let ghost mut pieces: Seq<Seq<char>> = Seq::empty();
    let mut i: usize = 0;
    proof {
        assert(s@.take(0) =~= Seq::<char>::empty());
    }
    while i < s.len()
        invariant
            i <= s@.len(),
            split_pieces(s@.take(i as int)) == pieces.push(cur@),
            done@.len() == keep_components(pieces).len(),
            forall|k: int| 0 <= k < done@.len() ==> #[trigger] done@[k]@ == keep_components(pieces)[k],
        decreases s@.len() - i,
    {
        let c = s[i];
        proof {
            assert(s@.take(i + 1).drop_last() =~= s@.take(i as int));
            assert(s@.take(i + 1).last() == c);
        }
        if c == '/' || c == '\\' {
            proof {
                lemma_keep_push(pieces, cur@);
            }
            let is_dot = cur.len() == 1 && cur[0] == '.';
            proof {
                assert(is_dot == (cur@ =~= seq!['.']));
            }
            if cur.len() > 0 && !is_dot {
                let moved = cur;
                done.push(moved);
                cur = Vec::new();
            } else {
                cur = Vec::new();
            }
            proof {
                pieces = pieces.push(split_pieces(s@.take(i as int)).last());
            }
        } else {
            proof {
                let old_cur = cur@;
                assert(pieces.push(old_cur).update(pieces.len() as int, old_cur.push(c)) =~= pieces.push(
                    old_cur.push(c),
                ));
            }
            cur.push(c);
        }
        i += 1;
    }
    proof {
        assert(s@.take(s@.len() as int) =~= s@);
        lemma_keep_push(pieces, cur@);
    }
    let is_dot = cur.len() == 1 && cur[0] == '.';
    proof {
        assert(is_dot == (cur@ =~= seq!['.']));
    }
    if cur.len() > 0 && !is_dot {
        done.push(cur);
    }
    done
}


/// Components joined with `/`.
pub open spec fn join_slash(cs: Seq<Seq<char>>) -> Seq<char>
    decreases cs.len(),
{
    if cs.len() == 0 {
        Seq::empty()
    } else if cs.len() == 1 {
        cs[0]
    } else {
        join_slash(cs.drop_last()).push('/') + cs.last()
    }
}

/// `root`'s components are the leading components of `path`.
pub open spec fn comps_prefix(path: Seq<Seq<char>>, root: Seq<Seq<char>>) -> bool {
    root.len() <= path.len() && path.take(root.len() as int) == root
}

/// The path starts with a separator: it has a root.
pub open spec fn is_rooted(t: Seq<char>) -> bool {
    t.len() > 0 && is_sep(t[0])
}

/// The leading component `Path::components` gives before the named ones:
/// the root (its separator) for a rooted path, `.` for a path whose first
/// piece is `.`, else none.
pub open spec fn lead_components(t: Seq<char>) -> Seq<Seq<char>> {
    if is_rooted(t) {
        seq![seq![t[0]]]
    } else if split_pieces(t)[0] == seq!['.'] {
        seq![seq!['.']]
    } else {
        Seq::empty()
    }
}

/// All the components of a path: the leading one, if any, then the named
/// pieces.
pub open spec fn full_components(t: Seq<char>) -> Seq<Seq<char>> {
    lead_components(t) + components(t)
}

/// The positions of the pieces that name components, in order.
pub open spec fn real_positions(ps: Seq<Seq<char>>) -> Seq<int>
    decreases ps.len(),
{
    if ps.len() == 0 {
        Seq::empty()
    } else {
        let r = real_positions(ps.drop_last());
        if is_component(ps.last()) {
            r.push(ps.len() - 1)
        } else {
            r
        }
    }
}

/// `root` is a leading part of `path`, component by component.
pub open spec fn strips(path: Seq<char>, root: Seq<char>) -> bool {
    comps_prefix(full_components(path), full_components(root))
}

/// The text of `path` relative to `root`, as its pieces (so that joining
/// them with `/` gives the text with every separator written `/`). Where
/// `root` is not a leading part of `path`, the whole text. Where it is, the
/// text from the first component after `root`'s to the last component,
/// with the separators and `.` pieces in between kept as written; empty
/// when nothing follows `root`. An empty `root` strips nothing at the front
/// and only the trailing separators and `.` pieces at the back.
pub open spec fn relative_pieces(path: Seq<char>, root: Seq<char>) -> Seq<Seq<char>> {
    let ps = split_pieces(path);
    let pos = real_positions(ps);
    let rf = full_components(root);
    if !strips(path, root) {
        ps
    } else if rf.len() == 0 {
        if pos.len() > 0 {
            ps.take(pos.last() + 1)
        } else if is_rooted(path) {
            seq![Seq::<char>::empty(), Seq::<char>::empty()]
        } else if lead_components(path).len() > 0 {
            lead_components(path)
        } else {
            seq![Seq::<char>::empty()]
        }
    } else {
        let k = rf.len() - lead_components(path).len();
        if k >= pos.len() {
            seq![Seq::<char>::empty()]
        } else {
            ps.subrange(pos[k], pos.last() + 1)
        }
    }
}

/// The lower-cased text of `path` relative to `root`, every separator
/// written `/`.
pub open spec fn relative_lower(path: Seq<char>, root: Seq<char>) -> Seq<char> {
    lower_of(join_slash(relative_pieces(path, root)))
}

/// The components of `path` relative to `root`: those after `root`'s when
/// `root` is a leading part of `path`, else all of them (the root one
/// included).
pub open spec fn relative_components(path: Seq<char>, root: Seq<char>) -> Seq<Seq<char>> {
    let p = full_components(path);
    let r = full_components(root);
    if comps_prefix(p, r) {
        p.skip(r.len() as int)
    } else {
        p
    }
}

/// Every `\` replaced by `/`.
pub open spec fn slashes(s: Seq<char>) -> Seq<char> {
    s.map_values(|c: char| if c == '\\' { '/' } else { c })
}

/// `str::trim`: leading and trailing white space removed.
pub open spec fn trim_start(s: Seq<char>) -> Seq<char>
    decreases s.len(),
{
    if s.len() > 0 && is_ws(s[0]) {
        trim_start(s.drop_first())
    } else {
        s
    }
}

pub open spec fn trim_end(s: Seq<char>) -> Seq<char>
    decreases s.len(),
{
    if s.len() > 0 && is_ws(s.last()) {
        trim_end(s.drop_last())
    } else {
        s
    }
}

pub open spec fn trim(s: Seq<char>) -> Seq<char> {
    trim_end(trim_start(s))
}

/// An already lower-cased pattern matches a path relative to a root: the
/// whole relative text, a leading directory of it, or any one of its
/// components.
pub open spec fn hits_relative(rel_lower: Seq<char>, rel: Seq<Seq<char>>, pat_lower: Seq<char>) -> bool {
    ||| rel_lower == pat_lower
    ||| has_prefix(rel_lower, pat_lower.push('/'))
    ||| exists|i: int| 0 <= i < rel.len() && lower_of(#[trigger] rel[i]) == pat_lower
}

/// An already lower-cased pattern matches `path` relative to `root`.
pub open spec fn pattern_hits(path: Seq<char>, root: Seq<char>, pat_lower: Seq<char>) -> bool {
    hits_relative(relative_lower(path, root), relative_components(path, root), pat_lower)
}

/// Lower-cased `\`-free form of a `.ozymemignore` pattern as the scanner uses it.
pub open spec fn scan_pattern(p: Seq<char>) -> Seq<char> {
    slashes(lower_of(p))
}

/// Lower-cased trimmed form of an ignore pattern as the indexer uses it.
pub open spec fn index_pattern(p: Seq<char>) -> Seq<char> {
    lower_of(slashes(trim(p)))
}

/// The position after the leading white space of `v[..end]`.
fn skip_ws_start(v: &Vec<char>) -> (i: usize)
    ensures
        i <= v@.len(),
        trim_start(v@) == v@.skip(i as int),
{
    let mut i: usize = 0;
    assert(v@.skip(0) =~= v@);
    while i < v.len() && char_is_ws(v[i])
        invariant
            i <= v@.len(),
            trim_start(v@) == trim_start(v@.skip(i as int)),
        decreases v@.len() - i,
    {
        assert(v@.skip(i as int).drop_first() =~= v@.skip(i as int + 1));
        i += 1;
    }
    proof {
        if i < v@.len() {
            assert(v@.skip(i as int)[0] == v@[i as int]);
        }
    }
    i
}

/// `str::trim` over a character vector.
pub fn trim_chars(v: &Vec<char>) -> (r: Vec<char>)
    ensures
        r@ == trim(v@),
{
    let start = skip_ws_start(v);
    let mut end: usize = v.len();
    let ghost t = v@.skip(start as int);
    proof {
        assert(v@.subrange(start as int, end as int) =~= t);
    }
    while end > start && char_is_ws(v[end - 1])
        invariant
            start <= end <= v@.len(),
            t == v@.skip(start as int),
            trim_end(t) == trim_end(v@.subrange(start as int, end as int)),
        decreases end,
    {
        assert(v@.subrange(start as int, end as int).drop_last() =~= v@.subrange(
            start as int,
            end - 1,
        ));
        end -= 1;
    }
    let mut r: Vec<char> = Vec::new();
    let mut k = start;
    while k < end
        invariant
            start <= k <= end <= v@.len(),
            r@ == v@.subrange(start as int, k as int),
        decreases end - k,
    {
        r.push(v[k]);
        assert(v@.subrange(start as int, k + 1) =~= v@.subrange(start as int, k as int).push(v@[k as int]));
        k += 1;
    }
    r
}

/// `str::trim_end` over a character vector.
pub fn trim_end_chars(v: &Vec<char>) -> (r: Vec<char>)
    ensures
        r@ == trim_end(v@),
{
    let mut end: usize = v.len();
    assert(v@.subrange(0, end as int) =~= v@);
    while end > 0 && char_is_ws(v[end - 1])
        invariant
            end <= v@.len(),
            trim_end(v@) == trim_end(v@.subrange(0, end as int)),
        decreases end,
    {
        assert(v@.subrange(0, end as int).drop_last() =~= v@.subrange(0, end - 1));
        end -= 1;
    }
    let mut r: Vec<char> = Vec::new();
    let mut k: usize = 0;
    while k < end
        invariant
            k <= end <= v@.len(),
            r@ == v@.subrange(0, k as int),
        decreases end - k,
    {
        r.push(v[k]);
        assert(v@.subrange(0, k + 1) =~= v@.subrange(0, k as int).push(v@[k as int]));
        k += 1;
    }
    r
}

/// Every `\` replaced by `/`.
pub fn slashes_of(v: &Vec<char>) -> (r: Vec<char>)
    ensures
        r@ == slashes(v@),
{
    let mut r: Vec<char> = Vec::new();
    let mut i: usize = 0;
    while i < v.len()
        invariant
            i <= v@.len(),
            r@ == slashes(v@.take(i as int)),
        decreases v@.len() - i,
    {
        let c = v[i];
        r.push(if c == '\\' { '/' } else { c });
        assert(slashes(v@.take(i + 1)) =~= slashes(v@.take(i as int)).push(
            if c == '\\' { '/' } else { c },
        ));
        i += 1;
    }
    assert(v@.take(v@.len() as int) =~= v@);
    r
}

/// Components joined with `/`.
pub fn join_with_slash(cs: &Vec<Vec<char>>, from: usize) -> (r: Vec<char>)
    requires
        from <= cs@.len(),
    ensures
        r@ == join_slash(cs@.skip(from as int).map_values(|c: Vec<char>| c@)),
{
    let mut r: Vec<char> = Vec::new();
    let mut i = from;
    let ghost views = cs@.skip(from as int).map_values(|c: Vec<char>| c@);
    while i < cs.len()
        invariant
            from <= i <= cs@.len(),
            views == cs@.skip(from as int).map_values(|c: Vec<char>| c@),
            r@ == join_slash(views.take(i - from)),
        decreases cs@.len() - i,
    {
        let ghost before = r@;
        if i > from {
            r.push('/');
        }
        let mut j: usize = 0;
        let ghost mid = r@;
        while j < cs[i].len()
            invariant
                i < cs@.len(),
                j <= cs@[i as int]@.len(),
                r@ == mid + cs@[i as int]@.take(j as int),
            decreases cs@[i as int]@.len() - j,
        {
            r.push(cs[i][j]);
            assert(cs@[i as int]@.take(j + 1) =~= cs@[i as int]@.take(j as int).push(cs@[i as int]@[j as int]));
            j += 1;
        }
        proof {
            assert(cs@[i as int]@.take(j as int) =~= cs@[i as int]@);
            let tk = views.take(i + 1 - from);
            assert(tk.drop_last() =~= views.take(i - from));
            assert(tk.last() == cs@[i as int]@);
            if i == from {
                assert(tk.len() == 1);
                assert(r@ =~= tk[0]);
            }
        }
        i += 1;
    }
    assert(views.take(cs@.len() - from) =~= views);
    r
}


/// The `\\?\` marker that Windows canonicalisation puts in front of a path.
pub open spec fn verbatim_marker() -> Seq<char> {
    seq!['\\', '\\', '?', '\\']
}

/// The path text without a leading `\\?\` marker.
pub open spec fn cleaned(s: Seq<char>) -> Seq<char> {
    if has_prefix(s, verbatim_marker()) {
        s.skip(4)
    } else {
        s
    }
}

/// `a` and `b` hold the same characters.
pub fn chars_eq(a: &Vec<char>, b: &Vec<char>) -> (r: bool)
    ensures
        r == (a@ == b@),
{
    if a.len() != b.len() {
        return false;
    }
    let mut i: usize = 0;
    while i < a.len()
        invariant
            a@.len() == b@.len(),
            i <= a@.len(),
            forall|k: int| 0 <= k < i ==> a@[k] == b@[k],
        decreases a@.len() - i,
    {
        if a[i] != b[i] {
            return false;
        }
        i += 1;
    }
    assert(a@ =~= b@);
    true
}

/// The characters of the path with a leading `\\?\` marker removed.
pub fn cleaned_chars(v: &Vec<char>) -> (r: Vec<char>)
    ensures
        r@ == cleaned(v@),
{
    let marker: Vec<char> = vec!['\\', '\\', '?', '\\'];
    assert(marker@ =~= verbatim_marker());
    if starts_with(v, &marker) {
        let mut r: Vec<char> = Vec::new();
        let mut i: usize = 4;
        while i < v.len()
            invariant
                4 <= i <= v@.len(),
                r@ == v@.subrange(4, i as int),
            decreases v@.len() - i,
        {
            r.push(v[i]);
            assert(v@.subrange(4, i + 1) =~= v@.subrange(4, i as int).push(v@[i as int]));
            i += 1;
        }
        assert(v@.subrange(4, v@.len() as int) =~= v@.skip(4));
        r
    } else {
        let mut r: Vec<char> = Vec::new();
        push_vec(&mut r, v);
        r
    }
}

fn push_vec(r: &mut Vec<char>, v: &Vec<char>)
    ensures
        final(r)@ == old(r)@ + v@,
{
    let mut i: usize = 0;
    while i < v.len()
        invariant
            i <= v@.len(),
            r@ == old(r)@ + v@.take(i as int),
        decreases v@.len() - i,
    {
        r.push(v[i]);
        assert(v@.take(i + 1) =~= v@.take(i as int).push(v@[i as int]));
        i += 1;
    }
    assert(v@.take(v@.len() as int) =~= v@);
}

/// Strips the `\\?\` prefix that Windows canonicalisation adds.
pub fn clean_path(path: &str) -> (r: String)
    ensures
        r@ == cleaned(path@),
{
    let v = chars_of(path);
    let c = cleaned_chars(&v);
    string_of(&c)
}

/// Lower-cased text of a character vector.
fn lower_vec(v: &Vec<char>) -> (r: Vec<char>)
    ensures
        r@ == lower_of(v@),
{
    let s = string_of(v);
    let l = to_lower(s.as_str());
    chars_of(l.as_str())
}

/// The pieces of a path, split at every separator (`split_pieces`).
fn pieces_of(s: &Vec<char>) -> (r: Vec<Vec<char>>)
    ensures
        r@.map_values(|c: Vec<char>| c@) == split_pieces(s@),
{
    let mut done: Vec<Vec<char>> = Vec::new();
    let mut cur: Vec<char> = Vec::new();
    let mut i: usize = 0;
    proof {
        assert(s@.take(0) =~= Seq::<char>::empty());
        assert(done@.map_values(|c: Vec<char>| c@).push(cur@) =~= seq![Seq::<char>::empty()]);
    }
    while i < s.len()
        invariant
            i <= s@.len(),
            split_pieces(s@.take(i as int)) == done@.map_values(|c: Vec<char>| c@).push(cur@),
        decreases s@.len() - i,
    {
        let c = s[i];
        proof {
            assert(s@.take(i + 1).drop_last() =~= s@.take(i as int));
            assert(s@.take(i + 1).last() == c);
        }
        let ghost before = done@.map_values(|c: Vec<char>| c@);
        let ghost old_cur = cur@;
        if c == '/' || c == '\\' {
            let moved = cur;
            done.push(moved);
            cur = Vec::new();
            proof {
                assert(done@.map_values(|c: Vec<char>| c@) =~= before.push(old_cur));
            }
        } else {
            cur.push(c);
            proof {
                assert(before.push(old_cur).update(before.len() as int, old_cur.push(c)) =~= before.push(
                    old_cur.push(c),
                ));
            }
        }
        i += 1;
    }
    proof {
        assert(s@.take(s@.len() as int) =~= s@);
    }
    let ghost before = done@.map_values(|c: Vec<char>| c@);
    let ghost last = cur@;
    done.push(cur);
    proof {
        assert(done@.map_values(|c: Vec<char>| c@) =~= before.push(last));
    }
    done
}

/// The positions of the named pieces lie within the pieces, in increasing
/// order.
proof fn lemma_real_positions(ps: Seq<Seq<char>>)
    ensures
        forall|j: int| 0 <= j < real_positions(ps).len() ==> 0 <= #[trigger] real_positions(ps)[j] < ps.len(),
        forall|j: int, l: int|
            0 <= j < l < real_positions(ps).len() ==> #[trigger] real_positions(ps)[j] < #[trigger] real_positions(ps)[l],
    decreases ps.len(),
{
    if ps.len() > 0 {
        let r = real_positions(ps.drop_last());
        lemma_real_positions(ps.drop_last());
        assert(forall|j: int| 0 <= j < r.len() ==> 0 <= #[trigger] r[j] < ps.len() - 1);
        if is_component(ps.last()) {
            let q = r.push(ps.len() - 1);
            assert(real_positions(ps) == q);
            assert forall|j: int, l: int| 0 <= j < l < q.len() implies #[trigger] q[j] < #[trigger] q[l] by {
                if l < r.len() {
                    assert(r[j] < r[l]);
                } else {
                    assert(q[j] == r[j]);
                }
            }
            assert forall|j: int| 0 <= j < q.len() implies 0 <= #[trigger] q[j] < ps.len() by {
                if j < r.len() {
                    assert(q[j] == r[j]);
                }
            }
        } else {
            assert(real_positions(ps) == r);
        }
    }
}

/// The positions of the named pieces.
fn real_positions_of(ps: &Vec<Vec<char>>) -> (r: Vec<usize>)
    ensures
        r@.map_values(|x: usize| x as int) == real_positions(ps@.map_values(|c: Vec<char>| c@)),
{
    let ghost views = ps@.map_values(|c: Vec<char>| c@);
    let mut r: Vec<usize> = Vec::new();
    let mut i: usize = 0;
    proof {
        assert(views.take(0) =~= Seq::<Seq<char>>::empty());
        assert(r@.map_values(|x: usize| x as int) =~= Seq::<int>::empty());
    }
    while i < ps.len()
        invariant
            i <= ps@.len(),
            views == ps@.map_values(|c: Vec<char>| c@),
            r@.map_values(|x: usize| x as int) == real_positions(views.take(i as int)),
        decreases ps@.len() - i,
    {
        proof {
            assert(views.take(i + 1).drop_last() =~= views.take(i as int));
            assert(views.take(i + 1).last() == ps@[i as int]@);
        }
        let is_dot = ps[i].len() == 1 && ps[i][0] == '.';
        proof {
            assert(is_dot == (ps@[i as int]@ =~= seq!['.']));
        }
        if ps[i].len() > 0 && !is_dot {
            let ghost before = r@.map_values(|x: usize| x as int);
            r.push(i);
            proof {
                assert(r@.map_values(|x: usize| x as int) =~= before.push(i as int));
            }
        }
        i += 1;
    }
    proof {
        assert(views.take(ps@.len() as int) =~= views);
    }
    r
}

/// The leading component of the path whose pieces are `ps`.
fn lead_of(v: &Vec<char>, ps: &Vec<Vec<char>>) -> (r: Vec<Vec<char>>)
    requires
        ps@.map_values(|c: Vec<char>| c@) == split_pieces(v@),
    ensures
        r@.map_values(|c: Vec<char>| c@) == lead_components(v@),
        r@.len() <= 1,
{
    proof {
        lemma_split_pieces_nonempty(v@);
    }
    let mut r: Vec<Vec<char>> = Vec::new();
    if v.len() > 0 && (v[0] == '/' || v[0] == '\\') {
        let mut root: Vec<char> = Vec::new();
        root.push(v[0]);
        r.push(root);
        proof {
            assert(r@.map_values(|c: Vec<char>| c@) =~= seq![seq![v@[0]]]);
        }
    } else {
        assert(ps@[0]@ == split_pieces(v@)[0]);
        if ps[0].len() == 1 && ps[0][0] == '.' {
            let mut dot: Vec<char> = Vec::new();
            dot.push('.');
            r.push(dot);
            proof {
                assert(ps@[0]@ =~= seq!['.']);
                assert(r@.map_values(|c: Vec<char>| c@) =~= seq![seq!['.']]);
            }
        } else {
            proof {
                assert(ps@[0]@ != seq!['.']);
                assert(r@.map_values(|c: Vec<char>| c@) =~= Seq::<Seq<char>>::empty());
            }
        }
    }
    r
}

/// All the components of a path (`full_components`).
fn full_components_of(v: &Vec<char>) -> (r: Vec<Vec<char>>)
    ensures
        r@.map_values(|c: Vec<char>| c@) == full_components(v@),
{
    let ps = pieces_of(v);
    let mut r = lead_of(v, &ps);
    let mut cs = components_of(v);
    let ghost lead = r@;
    let ghost comps = cs@;
    r.append(&mut cs);
    proof {
        assert(r@ == lead + comps);
        assert(comps.map_values(|c: Vec<char>| c@) =~= components(v@));
        assert(r@.map_values(|c: Vec<char>| c@) =~= lead.map_values(|c: Vec<char>| c@) + comps.map_values(
            |c: Vec<char>| c@,
        ));
    }
    r
}

/// Whether `rc` are the leading components of `pc`.
fn leading_part(pc: &Vec<Vec<char>>, rc: &Vec<Vec<char>>) -> (r: bool)
    ensures
        r == comps_prefix(pc@.map_values(|c: Vec<char>| c@), rc@.map_values(|c: Vec<char>| c@)),
{
    let ghost p = pc@.map_values(|c: Vec<char>| c@);
    let ghost q = rc@.map_values(|c: Vec<char>| c@);
    if rc.len() > pc.len() {
        return false;
    }
    let mut i: usize = 0;
    while i < rc.len()
        invariant
            rc@.len() <= pc@.len(),
            i <= rc@.len(),
            p == pc@.map_values(|c: Vec<char>| c@),
            q == rc@.map_values(|c: Vec<char>| c@),
            forall|k: int| 0 <= k < i ==> p[k] == q[k],
        decreases rc@.len() - i,
    {
        if !chars_eq(&pc[i], &rc[i]) {
            proof {
                assert(p.take(q.len() as int)[i as int] != q[i as int]);
            }
            return false;
        }
        i += 1;
    }
    assert(p.take(q.len() as int) =~= q);
    true
}

/// The pieces `cs[a..b]` joined with `/`.
fn join_range(cs: &Vec<Vec<char>>, a: usize, b: usize) -> (r: Vec<char>)
    requires
        a <= b <= cs@.len(),
    ensures
        r@ == join_slash(cs@.map_values(|c: Vec<char>| c@).subrange(a as int, b as int)),
{
    let mut r: Vec<char> = Vec::new();
    let mut i = a;
    let ghost views = cs@.map_values(|c: Vec<char>| c@).subrange(a as int, b as int);
    proof {
        assert(views.take(0) =~= Seq::<Seq<char>>::empty());
    }
    while i < b
        invariant
            a <= i <= b,
            b <= cs@.len(),
            views == cs@.map_values(|c: Vec<char>| c@).subrange(a as int, b as int),
            r@ == join_slash(views.take(i - a)),
        decreases b - i,
    {
        if i > a {
            r.push('/');
        }
        let mut j: usize = 0;
        let ghost mid = r@;
        while j < cs[i].len()
            invariant
                i < cs@.len(),
                j <= cs@[i as int]@.len(),
                r@ == mid + cs@[i as int]@.take(j as int),
            decreases cs@[i as int]@.len() - j,
        {
            r.push(cs[i][j]);
            assert(cs@[i as int]@.take(j + 1) =~= cs@[i as int]@.take(j as int).push(cs@[i as int]@[j as int]));
            j += 1;
        }
        proof {
            assert(cs@[i as int]@.take(j as int) =~= cs@[i as int]@);
            let tk = views.take(i + 1 - a);
            assert(tk.drop_last() =~= views.take(i - a));
            assert(tk.last() == cs@[i as int]@);
            if i == a {
                assert(tk.len() == 1);
                assert(r@ =~= tk[0]);
            }
        }
        i += 1;
    }
    assert(views.take(b - a) =~= views);
    r
}

/// The lower-cased text of `v` relative to `rv` (`relative_lower`).
fn relative_lower_of(v: &Vec<char>, rv: &Vec<char>) -> (r: Vec<char>)
    ensures
        r@ == relative_lower(v@, rv@),
{
    let ps = pieces_of(v);
    let ghost views = ps@.map_values(|c: Vec<char>| c@);
    let pos = real_positions_of(&ps);
    let ghost gpos = pos@.map_values(|x: usize| x as int);
    proof {
        lemma_real_positions(views);
    }
    let pf = full_components_of(v);
    let rf = full_components_of(rv);
    let lead = lead_of(v, &ps);
    let strip = leading_part(&pf, &rf);
    let joined = if !strip {
        join_range(&ps, 0, ps.len())
    } else if rf.len() == 0 {
        if pos.len() > 0 {
            let e = pos[pos.len() - 1];
            assert(gpos.last() == e);
            assert(real_positions(views)[gpos.len() - 1] < views.len());
            let n = ps.len();
            assert(e < n);
            let t = join_range(&ps, 0, e + 1);
            assert(views.subrange(0, e + 1) =~= views.take(e + 1));
            t
        } else if v.len() > 0 && (v[0] == '/' || v[0] == '\\') {
            let mut x: Vec<Vec<char>> = Vec::new();
            x.push(Vec::new());
            x.push(Vec::new());
            proof {
                assert(x@.map_values(|c: Vec<char>| c@).subrange(0, 2) =~= seq![
                    Seq::<char>::empty(),
                    Seq::<char>::empty(),
                ]);
            }
            join_range(&x, 0, 2)
        } else if lead.len() > 0 {
            proof {
                assert(lead@.map_values(|c: Vec<char>| c@).subrange(0, lead@.len() as int)
                    =~= lead_components(v@));
            }
            join_range(&lead, 0, lead.len())
        } else {
            Vec::new()
        }
    } else {
        let k = rf.len() - lead.len();
        if k >= pos.len() {
            Vec::new()
        } else {
            let st = pos[k];
            let e = pos[pos.len() - 1];
            assert(gpos[k as int] == st);
            assert(gpos.last() == e);
            assert(real_positions(views)[gpos.len() - 1] < views.len());
            if k < pos.len() - 1 {
                assert(gpos[k as int] < gpos[pos.len() - 1]);
            }
            let n = ps.len();
            assert(e < n);
            join_range(&ps, st, e + 1)
        }
    };
    proof {
        assert(views.subrange(0, views.len() as int) =~= views);
        assert(join_slash(seq![Seq::<char>::empty()]) =~= Seq::<char>::empty());
    }
    lower_vec(&joined)
}

/// Whether one already lower-cased pattern matches the path whose relative
/// lower-cased text is `rel_lower` and whose relative components are
/// `pc[from..]`.
fn hits(pc: &Vec<Vec<char>>, from: usize, rel_lower: &Vec<char>, pat: &Vec<char>) -> (r: bool)
    requires
        from <= pc@.len(),
    ensures
        r == hits_relative(rel_lower@, pc@.skip(from as int).map_values(|c: Vec<char>| c@), pat@),
{
    let ghost rel = pc@.skip(from as int).map_values(|c: Vec<char>| c@);
    if chars_eq(rel_lower, pat) {
        return true;
    }
    let mut dir = Vec::new();
    push_vec(&mut dir, pat);
    dir.push('/');
    if starts_with(rel_lower, &dir) {
        return true;
    }
    let mut i = from;
    while i < pc.len()
        invariant
            from <= i <= pc@.len(),
            rel == pc@.skip(from as int).map_values(|c: Vec<char>| c@),
            forall|k: int| 0 <= k < i - from ==> lower_of(#[trigger] rel[k]) != pat@,
        decreases pc@.len() - i,
    {
        let lc = lower_vec(&pc[i]);
        assert(rel[i - from] == pc@[i as int]@);
        if chars_eq(&lc, pat) {
            return true;
        }
        i += 1;
    }
    false
}

/// Whether `path`, relative to `project_root`, is covered by one of the
/// patterns read from `.ozymemignore` / `.gitignore` (scanner rules: the
/// pattern is lower-cased, then its `\` become `/`).
pub fn is_ignored_by_patterns(path: &str, patterns: &[String], project_root: &str) -> (r: bool)
    ensures
        r == exists|j: int|
            0 <= j < patterns@.len() && pattern_hits(
                cleaned(path@),
                project_root@,
                scan_pattern(#[trigger] patterns@[j]@),
            ),
{
    if patterns.len() == 0 {
        return false;
    }
    let pv = chars_of(path);
    let cv = cleaned_chars(&pv);
    let rv = chars_of(project_root);
    let pc = full_components_of(&cv);
    let rc = full_components_of(&rv);
    let from = if leading_part(&pc, &rc) {
        rc.len()
    } else {
        0
    };
    let ghost rel = pc@.skip(from as int).map_values(|c: Vec<char>| c@);
    proof {
        assert(rel =~= relative_components(cleaned(path@), project_root@));
    }
    let rel_lower = relative_lower_of(&cv, &rv);
    let mut j: usize = 0;
    while j < patterns.len()
        invariant
            j <= patterns@.len(),
            from <= pc@.len(),
            rel == relative_components(cleaned(path@), project_root@),
            rel == pc@.skip(from as int).map_values(|c: Vec<char>| c@),
            rel_lower@ == relative_lower(cleaned(path@), project_root@),
            forall|k: int|
                0 <= k < j ==> !pattern_hits(cleaned(path@), project_root@, scan_pattern(#[trigger] patterns@[k]@)),
        decreases patterns@.len() - j,
    {
        let lp = to_lower(patterns[j].as_str());
        let lv = chars_of(lp.as_str());
        let pat = slashes_of(&lv);
        if hits(&pc, from, &rel_lower, &pat) {
            return true;
        }
        j += 1;
    }
    false
}

/// Whether `path`, relative to `project_root`, matches one of the ignore
/// patterns (indexer rules: patterns are trimmed, `\` become `/`, empty
/// patterns are skipped, then the pattern is lower-cased).
pub fn path_matches_ignore(path: &str, patterns: &[String], project_root: &str) -> (r: bool)
    ensures
        r == exists|j: int|
            0 <= j < patterns@.len() && trim(#[trigger] patterns@[j]@).len() > 0 && pattern_hits(
                path@,
                project_root@,
                index_pattern(patterns@[j]@),
            ),
{
    if patterns.len() == 0 {
        return false;
    }
    let pv = chars_of(path);
    let rv = chars_of(project_root);
    let pc = full_components_of(&pv);
    let rc = full_components_of(&rv);
    let from = if leading_part(&pc, &rc) {
        rc.len()
    } else {
        0
    };
    let ghost rel = pc@.skip(from as int).map_values(|c: Vec<char>| c@);
    proof {
        assert(rel =~= relative_components(path@, project_root@));
    }
    let rel_lower = relative_lower_of(&pv, &rv);
    let mut j: usize = 0;
    while j < patterns.len()
        invariant
            j <= patterns@.len(),
            from <= pc@.len(),
            rel == relative_components(path@, project_root@),
            rel == pc@.skip(from as int).map_values(|c: Vec<char>| c@),
            rel_lower@ == relative_lower(path@, project_root@),
            forall|k: int|
                0 <= k < j ==> !(trim(#[trigger] patterns@[k]@).len() > 0 && pattern_hits(
                    path@,
                    project_root@,
                    index_pattern(patterns@[k]@),
                )),
        decreases patterns@.len() - j,
    {
        let pv = chars_of(patterns[j].as_str());
        let t = trim_chars(&pv);
        if t.len() > 0 {
            let sl = slashes_of(&t);
            let pat = lower_vec(&sl);
            if hits(&pc, from, &rel_lower, &pat) {
                return true;
            }
        }
        j += 1;
    }
    false
}


/// Trailing copies of `c` removed.
pub open spec fn trim_end_char(s: Seq<char>, c: char) -> Seq<char>
    decreases s.len(),
{
    if s.len() > 0 && s.last() == c {
        trim_end_char(s.drop_last(), c)
    } else {
        s
    }
}

/// The stored form of a path: no `\\?\` marker, then no trailing `\`, then no
/// trailing `/`.
pub open spec fn normalized(s: Seq<char>) -> Seq<char> {
    trim_end_char(trim_end_char(cleaned(s), '\\'), '/')
}

pub(crate) fn trim_end_char_vec(v: &mut Vec<char>, c: char)
    ensures
        final(v)@ == trim_end_char(old(v)@, c),
{
    while v.len() > 0 && v[v.len() - 1] == c
        invariant
            trim_end_char(v@, c) == trim_end_char(old(v)@, c),
        decreases v@.len(),
    {
        let ghost before = v@;
        v.pop();
        assert(v@ =~= before.drop_last());
    }
}

/// Normalizes a filesystem path for consistent storage.
/// Strips the `\\?\` prefix that Windows canonicalization adds, then trailing
/// `\` and `/`.
pub fn normalize_path(path: &str) -> (r: String)
    ensures
        r@ == normalized(path@),
{
    let v = chars_of(path);
    let mut c = cleaned_chars(&v);
    trim_end_char_vec(&mut c, '\\');
    trim_end_char_vec(&mut c, '/');
    string_of(&c)
}

/// The `\\?\UNC\` marker of a verbatim network path.
pub open spec fn unc_marker() -> Seq<char> {
    seq!['\\', '\\', '?', '\\', 'U', 'N', 'C', '\\']
}

/// The path with a verbatim marker removed: `\\?\UNC\server\share` becomes
/// `\\server\share`, `\\?\C:\x` becomes `C:\x`.
pub open spec fn unc_stripped(s: Seq<char>) -> Seq<char> {
    if has_prefix(s, unc_marker()) {
        seq!['\\', '\\'] + s.skip(8)
    } else {
        cleaned(s)
    }
}

/// Strips the verbatim prefix that `canonicalize` adds on Windows.
pub fn strip_unc_prefix(path: &str) -> (r: String)
    ensures
        r@ == unc_stripped(path@),
{
    let v = chars_of(path);
    let marker: Vec<char> = vec!['\\', '\\', '?', '\\', 'U', 'N', 'C', '\\'];
    assert(marker@ =~= unc_marker());
    if starts_with(&v, &marker) {
        let mut r: Vec<char> = vec!['\\', '\\'];
        let mut i: usize = 8;
        while i < v.len()
            invariant
                8 <= i <= v@.len(),
                r@ == seq!['\\', '\\'] + v@.subrange(8, i as int),
            decreases v@.len() - i,
        {
            r.push(v[i]);
            assert(v@.subrange(8, i + 1) =~= v@.subrange(8, i as int).push(v@[i as int]));
            i += 1;
        }
        assert(v@.subrange(8, v@.len() as int) =~= v@.skip(8));
        string_of(&r)
    } else {
        let c = cleaned_chars(&v);
        string_of(&c)
    }
}

/// The last component of a path, unless there is none or it is `..`.
pub open spec fn file_name(s: Seq<char>) -> Option<Seq<char>> {
    let cs = components(s);
    if cs.len() == 0 || cs.last() == seq!['.', '.'] {
        None
    } else {
        Some(cs.last())
    }
}

/// The index of the last `.` in `n`, if any.
pub open spec fn last_dot(n: Seq<char>) -> Option<int>
    decreases n.len(),
{
    if n.len() == 0 {
        None
    } else if n.last() == '.' {
        Some(n.len() - 1)
    } else {
        last_dot(n.drop_last())
    }
}

/// The extension of a file name: the text after its last `.`, when that dot
/// is not the first character.
pub open spec fn extension_of(n: Seq<char>) -> Option<Seq<char>> {
    match last_dot(n) {
        Some(i) => if i > 0 {
            Some(n.skip(i + 1))
        } else {
            None
        },
        None => None,
    }
}

/// The extension of a path's file name.
pub open spec fn path_extension(s: Seq<char>) -> Option<Seq<char>> {
    match file_name(s) {
        Some(n) => extension_of(n),
        None => None,
    }
}

/// The file name of the path, as characters.
pub fn file_name_of(path: &Vec<char>) -> (r: Option<Vec<char>>)
    ensures
        match r {
            Some(n) => file_name(path@) == Some(n@),
            None => file_name(path@) is None,
        },
{
    let mut cs = components_of(path);
    if cs.len() == 0 {
        return None;
    }
    let last = cs.pop().unwrap();
    let dots: Vec<char> = vec!['.', '.'];
    if chars_eq(&last, &dots) {
        assert(dots@ =~= seq!['.', '.']);
        None
    } else {
        assert(dots@ =~= seq!['.', '.']);
        Some(last)
    }
}

/// The extension of a file name, as characters.
pub fn extension_of_name(n: &Vec<char>) -> (r: Option<Vec<char>>)
    ensures
        match r {
            Some(e) => extension_of(n@) == Some(e@),
            None => extension_of(n@) is None,
        },
{
    let mut i = n.len();
    assert(n@.take(n@.len() as int) =~= n@);
    while i > 0 && n[i - 1] != '.'
        invariant
            i <= n@.len(),
            last_dot(n@) == last_dot(n@.take(i as int)),
        decreases i,
    {
        assert(n@.take(i as int).drop_last() =~= n@.take(i - 1));
        i -= 1;
    }
    proof {
        assert(n@.take(n@.len() as int) =~= n@);
    }
    if i <= 1 {
        proof {
            if i == 1 {
                assert(n@.take(1).last() == '.');
            } else {
                assert(n@.take(0).len() == 0);
            }
        }
        return None;
    }
    assert(n@.take(i as int).last() == '.');
    let mut e: Vec<char> = Vec::new();
    let mut k = i;
    while k < n.len()
        invariant
            i <= k <= n@.len(),
            e@ == n@.subrange(i as int, k as int),
        decreases n@.len() - k,
    {
        e.push(n[k]);
        assert(n@.subrange(i as int, k + 1) =~= n@.subrange(i as int, k as int).push(n@[k as int]));
        k += 1;
    }
    assert(n@.subrange(i as int, n@.len() as int) =~= n@.skip(i as int));
    Some(e)
}

/// `v` spells the word `w`.
pub fn is_word(v: &Vec<char>, w: &str) -> (r: bool)
    ensures
        r == (v@ == w@),
{
    let wv = chars_of(w);
    chars_eq(v, &wv)
}

/// Extensions of logs, caches, binaries and databases that are never indexed.
pub open spec fn is_garbage_extension(e: Seq<char>) -> bool {
    ||| e == "log"@
    ||| e == "history"@
    ||| e == "bin"@
    ||| e == "dat"@
    ||| e == "cache"@
    ||| e == "exe"@
    ||| e == "dll"@
    ||| e == "so"@
    ||| e == "dylib"@
    ||| e == "db"@
    ||| e == "sqlite"@
    ||| e == "sqlite3"@
    ||| e == "pstat"@
    ||| e == "lock"@
    ||| e == "pid"@
}

/// A file whose (lower-cased) extension marks a log, cache, binary or database.
pub fn is_garbage_file(path: &str) -> (r: bool)
    ensures
        r == (path_extension(path@) matches Some(e) && is_garbage_extension(lower_of(e))),
{
    let v = chars_of(path);
    match file_name_of(&v) {
        None => false,
        Some(n) => match extension_of_name(&n) {
            None => false,
            Some(e) => {
                let l = lower_vec(&e);
                is_word(&l, "log") || is_word(&l, "history") || is_word(&l, "bin") || is_word(
                    &l,
                    "dat",
                ) || is_word(&l, "cache") || is_word(&l, "exe") || is_word(&l, "dll") || is_word(
                    &l,
                    "so",
                ) || is_word(&l, "dylib") || is_word(&l, "db") || is_word(&l, "sqlite") || is_word(
                    &l,
                    "sqlite3",
                ) || is_word(&l, "pstat") || is_word(&l, "lock") || is_word(&l, "pid")
            },
        },
    }
}

/// Directory names that hold generated, vendored or tool state.
pub open spec fn is_noise_name(n: Seq<char>) -> bool {
    ||| n == "target"@
    ||| n == "node_modules"@
    ||| n == ".git"@
    ||| n == ".svn"@
    ||| n == "__pycache__"@
    ||| n == ".ozymem"@
    ||| n == "build"@
    ||| n == "dist"@
    ||| n == ".next"@
    ||| n == ".cache"@
    ||| n == "vendor"@
    ||| n == "bower_components"@
    ||| n == ".idea"@
    ||| n == ".vscode"@
}

pub fn is_noise_dir_name(n: &Vec<char>) -> (r: bool)
    ensures
        r == is_noise_name(n@),
{
    is_word(n, "target") || is_word(n, "node_modules") || is_word(n, ".git") || is_word(n, ".svn")
        || is_word(n, "__pycache__") || is_word(n, ".ozymem") || is_word(n, "build") || is_word(
        n,
        "dist",
    ) || is_word(n, ".next") || is_word(n, ".cache") || is_word(n, "vendor") || is_word(
        n,
        "bower_components",
    ) || is_word(n, ".idea") || is_word(n, ".vscode")
}

/// A directory (as `is_dir` reports) whose name marks generated or tool state.
pub fn is_noise_dir(path: &str, is_dir: bool) -> (r: bool)
    ensures
        r == (is_dir && (file_name(path@) matches Some(n) && is_noise_name(n))),
{
    if !is_dir {
        return false;
    }
    let v = chars_of(path);
    match file_name_of(&v) {
        Some(n) => is_noise_dir_name(&n),
        None => false,
    }
}


/// Operating-system folders (`.git` included when `with_git`).
pub open spec fn is_system_dir(n: Seq<char>, with_git: bool) -> bool {
    ||| n == "appdata"@
    ||| n == "program files"@
    ||| n == "programdata"@
    ||| n == "system32"@
    ||| n == "windows"@
    ||| (with_git && n == ".git"@)
    ||| n == ".svn"@
}

/// Folders of development environments and build outputs.
pub open spec fn is_dev_dir(n: Seq<char>) -> bool {
    ||| n == "node_modules"@
    ||| n == "__pycache__"@
    ||| n == ".venv"@
    ||| n == "env"@
    ||| n == "target"@
    ||| n == "dist"@
    ||| n == "build"@
}

/// Browser and web-view folders, by name.
pub open spec fn is_browser_dir(n: Seq<char>) -> bool {
    ||| n == "ebwebview"@
    ||| n == "bravesoftware"@
    ||| n == "cache"@
    ||| n == "local storage"@
}

/// Browser profile locations, by path text.
pub open spec fn is_browser_path(p: Seq<char>) -> bool {
    ||| occurs_in(p, "google/chrome"@)
    ||| occurs_in(p, "google\\chrome"@)
    ||| occurs_in(p, "microsoft/edge"@)
    ||| occurs_in(p, "microsoft\\edge"@)
}

/// Folders of editors and AI tools.
pub open spec fn is_editor_dir(n: Seq<char>) -> bool {
    ||| n == ".cursor"@
    ||| n == ".vscode"@
    ||| n == ".idea"@
    ||| n == ".config"@
    ||| n == ".anthropic"@
    ||| n == ".ollama"@
}

/// A hidden name: starts with `.` and is not `.` itself.
pub open spec fn is_hidden(n: Seq<char>) -> bool {
    n.len() > 0 && n[0] == '.' && n != seq!['.']
}

/// One component (raw `n`) rules a watched or deleted path out.
pub open spec fn component_blocks(n: Seq<char>, path_lower: Seq<char>) -> bool {
    let l = lower_of(n);
    ||| is_system_dir(l, true)
    ||| is_dev_dir(l)
    ||| is_browser_dir(l)
    ||| is_browser_path(path_lower)
    ||| is_editor_dir(l)
    ||| is_hidden(n)
}

/// Some component of the path rules it out.
pub open spec fn blocked_by_components(path: Seq<char>) -> bool {
    let cs = components(path);
    exists|i: int| 0 <= i < cs.len() && component_blocks(#[trigger] cs[i], lower_of(path))
}

fn system_dir(l: &Vec<char>, with_git: bool) -> (r: bool)
    ensures
        r == is_system_dir(l@, with_git),
{
    is_word(l, "appdata") || is_word(l, "program files") || is_word(l, "programdata") || is_word(
        l,
        "system32",
    ) || is_word(l, "windows") || (with_git && is_word(l, ".git")) || is_word(l, ".svn")
}

fn dev_dir(l: &Vec<char>) -> (r: bool)
    ensures
        r == is_dev_dir(l@),
{
    is_word(l, "node_modules") || is_word(l, "__pycache__") || is_word(l, ".venv") || is_word(
        l,
        "env",
    ) || is_word(l, "target") || is_word(l, "dist") || is_word(l, "build")
}

fn browser_dir(l: &Vec<char>) -> (r: bool)
    ensures
        r == is_browser_dir(l@),
{
    is_word(l, "ebwebview") || is_word(l, "bravesoftware") || is_word(l, "cache") || is_word(
        l,
        "local storage",
    )
}

fn browser_path(p: &Vec<char>) -> (r: bool)
    ensures
        r == is_browser_path(p@),
{
    contains(p, &chars_of("google/chrome")) || contains(p, &chars_of("google\\chrome")) || contains(
        p,
        &chars_of("microsoft/edge"),
    ) || contains(p, &chars_of("microsoft\\edge"))
}

fn editor_dir(l: &Vec<char>) -> (r: bool)
    ensures
        r == is_editor_dir(l@),
{
    is_word(l, ".cursor") || is_word(l, ".vscode") || is_word(l, ".idea") || is_word(l, ".config")
        || is_word(l, ".anthropic") || is_word(l, ".ollama")
}

fn hidden(n: &Vec<char>) -> (r: bool)
    ensures
        r == is_hidden(n@),
{
    let dot: Vec<char> = vec!['.'];
    assert(dot@ =~= seq!['.']);
    n.len() > 0 && n[0] == '.' && !chars_eq(n, &dot)
}

/// Whether some component of the path rules it out for watching or deletion.
pub fn blocked_path(path: &str) -> (r: bool)
    ensures
        r == blocked_by_components(path@),
{
    let v = chars_of(path);
    let cs = components_of(&v);
    let pl = lower_vec(&v);
    let mut i: usize = 0;
    while i < cs.len()
        invariant
            i <= cs@.len(),
            cs@.len() == components(path@).len(),
            forall|k: int| 0 <= k < cs@.len() ==> #[trigger] cs@[k]@ == components(path@)[k],
            pl@ == lower_of(path@),
            forall|k: int| 0 <= k < i ==> !component_blocks(#[trigger] components(path@)[k], pl@),
        decreases cs@.len() - i,
    {
        let l = lower_vec(&cs[i]);
        assert(cs@[i as int]@ == components(path@)[i as int]);
        if system_dir(&l, true) || dev_dir(&l) || browser_dir(&l) || browser_path(&pl) || editor_dir(
            &l,
        ) || hidden(&cs[i]) {
            return true;
        }
        i += 1;
    }
    false
}

/// Whether a removed file's path should be cleaned from the graph. `is_binary`
/// is the binary-content verdict for the path.
pub fn should_process_delete(path: &str, ignore_patterns: &[String], project_root: &str, is_binary: bool) -> (r: bool)
    ensures
        r == (!is_ignored_spec(path@, ignore_patterns@, project_root@) && !is_binary
            && !(path_extension(path@) matches Some(e) && is_garbage_extension(lower_of(e)))
            && !blocked_by_components(path@)),
{
    if is_ignored_by_patterns(path, ignore_patterns, project_root) {
        return false;
    }
    if is_binary {
        return false;
    }
    if is_garbage_file(path) {
        return false;
    }
    !blocked_path(path)
}

/// Whether a modified path should be re-indexed. `is_file` and `is_binary`
/// are what the file system and the content check report for the path.
pub fn should_watch_path(
    path: &str,
    ignore_patterns: &[String],
    project_root: &str,
    is_file: bool,
    is_binary: bool,
) -> (r: bool)
    ensures
        r == (!is_ignored_spec(path@, ignore_patterns@, project_root@) && is_file && !is_binary
            && !(path_extension(path@) matches Some(e) && is_garbage_extension(lower_of(e)))
            && !blocked_by_components(path@)),
{
    if is_ignored_by_patterns(path, ignore_patterns, project_root) {
        return false;
    }
    if !is_file {
        return false;
    }
    if is_binary {
        return false;
    }
    if is_garbage_file(path) {
        return false;
    }
    !blocked_path(path)
}

/// The scanner's ignore verdict for a path, as `is_ignored_by_patterns` states it.
pub open spec fn is_ignored_spec(path: Seq<char>, patterns: Seq<String>, root: Seq<char>) -> bool {
    exists|j: int|
        0 <= j < patterns.len() && pattern_hits(
            cleaned(path),
            root,
            scan_pattern(#[trigger] patterns[j]@),
        )
}

/// A pattern ignores every path relative to the root that it names: the
/// relative text itself, anything under it as a leading directory, and any
/// path with a component equal to it (compared lower-case), wherever that
/// component stands. Where the pattern is none of these, it ignores nothing.
pub proof fn lemma_pattern_hits_any_component(path: Seq<char>, root: Seq<char>, pat: Seq<char>)
    ensures
        forall|i: int|
            0 <= i < relative_components(path, root).len() && lower_of(
                #[trigger] relative_components(path, root)[i],
            ) == pat ==> pattern_hits(path, root, pat),
        relative_lower(path, root) == pat ==> pattern_hits(path, root, pat),
        relative_lower(path, root).len() > pat.len() && relative_lower(path, root).subrange(
            0,
            pat.len() + 1int,
        ) == pat.push('/') ==> pattern_hits(path, root, pat),
        pattern_hits(path, root, pat) ==> relative_lower(path, root) == pat || (relative_lower(
            path,
            root,
        ).len() > pat.len() && relative_lower(path, root).subrange(0, pat.len() + 1int) == pat.push('/'))
            || exists|i: int|
            0 <= i < relative_components(path, root).len() && lower_of(
                #[trigger] relative_components(path, root)[i],
            ) == pat,
{
    let rl = relative_lower(path, root);
    let q = pat.push('/');
    if rl.len() > pat.len() && rl.subrange(0, pat.len() + 1int) == q {
        assert(has_prefix(rl, q));
    }
    if has_prefix(rl, q) {
        assert(rl.subrange(0, q.len() as int) == q);
    }
}

/// A scan ignores a path whenever one of its components relative to the
/// project root equals a pattern, lower-cased with `/` for `\`, wherever that
/// component stands.
pub proof fn lemma_ignored_by_any_component(path: Seq<char>, patterns: Seq<String>, root: Seq<char>)
    ensures
        forall|i: int, j: int|
            0 <= i < relative_components(cleaned(path), root).len() && 0 <= j < patterns.len() && lower_of(
                #[trigger] relative_components(cleaned(path), root)[i],
            ) == scan_pattern(#[trigger] patterns[j]@) ==> is_ignored_spec(path, patterns, root),
{
    assert forall|i: int, j: int|
        0 <= i < relative_components(cleaned(path), root).len() && 0 <= j < patterns.len() && lower_of(
            #[trigger] relative_components(cleaned(path), root)[i],
        ) == scan_pattern(#[trigger] patterns[j]@) implies is_ignored_spec(path, patterns, root) by {
        lemma_pattern_hits_any_component(cleaned(path), root, scan_pattern(patterns[j]@));
    }
}

/// No pattern ignores nothing, and more patterns ignore at least as much:
/// a path ignored by some patterns stays ignored when others are added,
/// before or after them.
pub proof fn lemma_ignore_monotone(path: Seq<char>, ps: Seq<String>, qs: Seq<String>, root: Seq<char>)
    ensures
        !is_ignored_spec(path, Seq::<String>::empty(), root),
        is_ignored_spec(path, ps, root) ==> is_ignored_spec(path, ps + qs, root),
        is_ignored_spec(path, qs, root) ==> is_ignored_spec(path, ps + qs, root),
{
    if is_ignored_spec(path, ps, root) {
        let j = choose|j: int|
            0 <= j < ps.len() && pattern_hits(cleaned(path), root, scan_pattern(#[trigger] ps[j]@));
        assert((ps + qs)[j] == ps[j]);
    }
    if is_ignored_spec(path, qs, root) {
        let j = choose|j: int|
            0 <= j < qs.len() && pattern_hits(cleaned(path), root, scan_pattern(#[trigger] qs[j]@));
        assert((ps + qs)[ps.len() + j] == qs[j]);
    }
}

/// Folders the scanner never enters.
pub open spec fn is_excluded_dir(n: Seq<char>) -> bool {
    ||| n == "vendor"@
    ||| n == "node_modules"@
    ||| n == "target"@
    ||| n == ".git"@
    ||| n == "storage"@
}

/// Whether the directory walk descends into (or yields) `path`.
pub open spec fn descends(path: Seq<char>, patterns: Seq<String>, root: Seq<char>) -> bool {
    match file_name(path) {
        None => true,
        Some(n) => {
            let l = lower_of(n);
            !is_excluded_dir(l) && !is_system_dir(l, false) && !is_dev_dir(l) && !is_browser_dir(l)
                && !is_browser_path(lower_of(path)) && !is_editor_dir(l) && !is_hidden(n)
                && !is_ignored_spec(path, patterns, root)
        },
    }
}

/// The directory-walk filter of a scan: whether the walk enters `path`.
pub fn should_descend(path: &str, ignore_patterns: &[String], project_root: &str) -> (r: bool)
    ensures
        r == descends(path@, ignore_patterns@, project_root@),
{
    let v = chars_of(path);
    let name = match file_name_of(&v) {
        None => {
            return true;
        },
        Some(n) => n,
    };
    let l = lower_vec(&name);
    if is_word(&l, "vendor") || is_word(&l, "node_modules") || is_word(&l, "target") || is_word(
        &l,
        ".git",
    ) || is_word(&l, "storage") {
        return false;
    }
    if system_dir(&l, false) || dev_dir(&l) {
        return false;
    }
    let pl = lower_vec(&v);
    if browser_dir(&l) || browser_path(&pl) {
        return false;
    }
    if editor_dir(&l) {
        return false;
    }
    if hidden(&name) {
        return false;
    }
    !is_ignored_by_patterns(path, ignore_patterns, project_root)
}

/// The patterns of an ignore file: each line trimmed, blank lines and
/// comment lines (starting with `#`) left out, in order.
pub open spec fn pattern_lines(ls: Seq<Seq<char>>) -> Seq<Seq<char>>
    decreases ls.len(),
{
    if ls.len() == 0 {
        Seq::empty()
    } else {
        let t = trim(ls.last());
        if t.len() > 0 && t[0] != '#' {
            pattern_lines(ls.drop_last()).push(t)
        } else {
            pattern_lines(ls.drop_last())
        }
    }
}

/// The patterns an ignore file's text gives, none for a missing file.
pub open spec fn file_patterns(content: Option<&str>) -> Seq<Seq<char>> {
    match content {
        Some(c) => pattern_lines(text_lines(c@)),
        None => Seq::empty(),
    }
}

/// The ignore patterns of a project: those of its `.ozymemignore`, then
/// those of its `.gitignore` (each given as its text, `None` when the file
/// cannot be read).
pub fn ignore_patterns_for_project(ozymemignore: Option<&str>, gitignore: Option<&str>) -> (r: Vec<
    String,
>)
    ensures
        r@.map_values(|s: String| s@) == file_patterns(ozymemignore) + file_patterns(gitignore),
{
    let mut r = match ozymemignore {
        Some(c) => ignore_patterns_from(c),
        None => Vec::new(),
    };
    let ghost first = r@;
    let mut more = match gitignore {
        Some(c) => ignore_patterns_from(c),
        None => Vec::new(),
    };
    let ghost second = more@;
    r.append(&mut more);
    assert(r@.map_values(|s: String| s@) =~= first.map_values(|s: String| s@) + second.map_values(
        |s: String| s@,
    ));
    r
}

/// The ignore patterns that the text of an ignore file (`.ozymemignore`,
/// `.gitignore`) holds.
pub fn ignore_patterns_from(content: &str) -> (r: Vec<String>)
    ensures
        r@.map_values(|s: String| s@) == pattern_lines(text_lines(content@)),
{
    let v = chars_of(content);
    let ls = lines_of(&v);
    let ghost lv = text_lines(v@);
    let mut r: Vec<String> = Vec::new();
    let mut i: usize = 0;
    while i < ls.len()
        invariant
            i <= ls@.len(),
            lv == text_lines(v@),
            v@ == content@,
            ls@.len() == lv.len(),
            forall|k: int| 0 <= k < ls@.len() ==> #[trigger] ls@[k]@ == lv[k],
            r@.map_values(|s: String| s@) == pattern_lines(lv.take(i as int)),
        decreases ls@.len() - i,
    {
        let t = trim_chars(&ls[i]);
        proof {
            assert(lv.take(i + 1).drop_last() =~= lv.take(i as int));
            assert(lv.take(i + 1).last() == lv[i as int]);
        }
        if t.len() > 0 && t[0] != '#' {
            let s = string_of(&t);
            proof {
                assert(r@.push(s).map_values(|s: String| s@) =~= r@.map_values(|s: String| s@).push(
                    s@,
                ));
            }
            r.push(s);
        }
        i += 1;
    }
    assert(lv.take(i as int) =~= lv);
    r
}

/// What keeping `.ozymem` out of git does to a repository's `.gitignore`.
pub enum GitignoreChange {
    /// There is no `.gitignore`: create it with this text.
    Create(String),
    /// Append this text to the existing file.
    Append(String),
    /// The file already lists the folder.
    Keep,
}

/// A `.gitignore` line (trimmed) that already keeps `.ozymem` out.
pub open spec fn lists_ozymem(line: Seq<char>) -> bool {
    let t = trim(line);
    t == "/.ozymem"@ || t == ".ozymem"@ || t == ".ozymem/"@
}

/// Some line of `ls` keeps `.ozymem` out.
pub open spec fn any_lists_ozymem(ls: Seq<Seq<char>>) -> bool {
    exists|i: int| 0 <= i < ls.len() && lists_ozymem(#[trigger] ls[i])
}

/// The change to a repository's `.gitignore` (whose text is `content`, or
/// `None` when there is none) that keeps the `.ozymem` folder out of git.
pub fn gitignore_change(content: Option<&str>) -> (r: GitignoreChange)
    ensures
        match content {
            None => r matches GitignoreChange::Create(t) && t@ == "/.ozymem\n"@,
            Some(c) => if any_lists_ozymem(text_lines(c@)) {
                r is Keep
            } else {
                r matches GitignoreChange::Append(t) && t@ == "\n# Ozymem project memory\n/.ozymem\n"@
            },
        },
{
    match content {
        None => GitignoreChange::Create("/.ozymem\n".to_owned()),
        Some(c) => {
            let v = chars_of(c);
            let ls = lines_of(&v);
            let ghost lv = text_lines(v@);
            let a = chars_of("/.ozymem");
            let b = chars_of(".ozymem");
            let d = chars_of(".ozymem/");
            let mut i: usize = 0;
            while i < ls.len()
                invariant
                    i <= ls@.len(),
                    content == Some(c),
                    lv == text_lines(c@),
                    ls@.len() == lv.len(),
                    forall|k: int| 0 <= k < ls@.len() ==> #[trigger] ls@[k]@ == lv[k],
                    a@ == "/.ozymem"@,
                    b@ == ".ozymem"@,
                    d@ == ".ozymem/"@,
                    forall|k: int| 0 <= k < i ==> !lists_ozymem(#[trigger] lv[k]),
                decreases ls@.len() - i,
            {
                let t = trim_chars(&ls[i]);
                if chars_eq(&t, &a) || chars_eq(&t, &b) || chars_eq(&t, &d) {
                    assert(lists_ozymem(lv[i as int]));
                    return GitignoreChange::Keep;
                }
                i += 1;
            }
            GitignoreChange::Append("\n# Ozymem project memory\n/.ozymem\n".to_owned())
        },
    }
}

/// Splitting text that ends a line, then a piece with no separator and a
/// separator: the pieces of the text with the piece put in its empty last
/// place, then an empty piece.
proof fn lemma_split_then_line(p: Seq<char>, w: Seq<char>, sep: char)
    requires
        split_on(p, sep).last().len() == 0,
        !w.contains(sep),
    ensures
        split_on(p + w + seq![sep], sep) == split_on(p, sep).update(
            split_on(p, sep).len() - 1,
            w,
        ).push(Seq::<char>::empty()),
    decreases w.len(),
{
    crate::text::lemma_split_on_len(p, sep);
    let ps = split_on(p, sep);
    if w.len() == 0 {
        assert(p + w + seq![sep] =~= p.push(sep));
        assert((p + w + seq![sep]).drop_last() =~= p);
        assert(w =~= ps[ps.len() - 1]);
        assert(ps.update(ps.len() - 1, w) =~= ps);
    } else {
        let w0 = w.drop_last();
        assert forall|i: int| 0 <= i < w0.len() implies w0[i] != sep by {
            assert(w0[i] == w[i]);
        }
        assert(!w0.contains(sep)) by {
            if w0.contains(sep) {
                let i = choose|i: int| 0 <= i < w0.len() && w0[i] == sep;
            }
        }
        lemma_split_on_pieces(p, w, sep);
        let q = p + w;
        assert((q + seq![sep]).drop_last() =~= q);
        assert(p + w + seq![sep] =~= q + seq![sep]);
    }
}

/// Appending a piece with no separator to text whose last piece is empty
/// puts it in that last place.
proof fn lemma_split_on_pieces(p: Seq<char>, w: Seq<char>, sep: char)
    requires
        split_on(p, sep).last().len() == 0,
        !w.contains(sep),
    ensures
        split_on(p + w, sep) == split_on(p, sep).update(split_on(p, sep).len() - 1, w),
    decreases w.len(),
{
    crate::text::lemma_split_on_len(p, sep);
    let ps = split_on(p, sep);
    if w.len() == 0 {
        assert(p + w =~= p);
        assert(w =~= ps[ps.len() - 1]);
        assert(ps.update(ps.len() - 1, w) =~= ps);
    } else {
        let w0 = w.drop_last();
        assert(!w0.contains(sep)) by {
            if w0.contains(sep) {
                let i = choose|i: int| 0 <= i < w0.len() && w0[i] == sep;
                assert(w[i] == sep);
            }
        }
        assert(w.last() != sep) by {
            assert(w[w.len() - 1] == w.last());
        }
        lemma_split_on_pieces(p, w0, sep);
        assert((p + w).drop_last() =~= p + w0);
        assert((p + w).last() == w.last());
        crate::text::lemma_split_on_len(p + w0, sep);
        assert(w0.push(w.last()) =~= w);
        let r = split_on(p + w0, sep);
        assert(r == ps.update(ps.len() - 1, w0));
        assert(r.len() == ps.len());
        assert(r.last() == w0);
        assert(split_on(p + w, sep) == r.update(r.len() - 1, r.last().push((p + w).last())));
        assert(r.update(r.len() - 1, w0.push(w.last())) =~= ps.update(ps.len() - 1, w));
    }
}

/// After the change `gitignore_change` asks for is made (the file created
/// with its text, or its text appended), the file lists `.ozymem`, so asking
/// again gives `Keep`: the change is made once.
pub proof fn lemma_gitignore_change_settles(content: Option<Seq<char>>)
    ensures
        match content {
            None => any_lists_ozymem(text_lines("/.ozymem\n"@)),
            Some(c) => any_lists_ozymem(text_lines(c + "\n# Ozymem project memory\n/.ozymem\n"@)),
        },
{
    reveal_strlit("/.ozymem\n");
    reveal_strlit("\n# Ozymem project memory\n/.ozymem\n");
    reveal_strlit("/.ozymem");
    let w = "/.ozymem"@;
    assert(!w.contains('\n')) by {
        if w.contains('\n') {
            let i = choose|i: int| 0 <= i < w.len() && w[i] == '\n';
        }
    }
    let p = match content {
        None => Seq::<char>::empty(),
        Some(c) => c + "\n# Ozymem project memory\n"@,
    };
    reveal_strlit("\n# Ozymem project memory\n");
    let full = match content {
        None => "/.ozymem\n"@,
        Some(c) => c + "\n# Ozymem project memory\n/.ozymem\n"@,
    };
    assert(full =~= p + w + seq!['\n']);
    let ps = split_on(p, '\n');
    crate::text::lemma_split_on_len(p, '\n');
    assert(ps.last().len() == 0) by {
        if p.len() > 0 {
            assert(p.last() == '\n');
        }
    }
    lemma_split_then_line(p, w, '\n');
    let qs = split_on(full, '\n');
    let lines = text_lines(full);
    assert(qs.last().len() == 0);
    assert(lines == qs.drop_last().map_values(|x: Seq<char>| strip_cr(x)));
    let k = ps.len() - 1;
    assert(qs[k] == w);
    assert(lines[k] == strip_cr(w));
    assert(strip_cr(w) == w);
    assert(trim_start(w) == w);
    assert(trim_end(w) == w);
    assert(lists_ozymem(lines[k]));
}

/// Every character is white space.
pub open spec fn all_ws(w: Seq<char>) -> bool {
    forall|i: int| 0 <= i < w.len() ==> is_ws(#[trigger] w[i])
}

/// Trailing white space does not change what `trim_end` keeps.
pub proof fn lemma_trim_end_append_ws(x: Seq<char>, w: Seq<char>)
    requires
        all_ws(w),
    ensures
        trim_end(x + w) == trim_end(x),
    decreases w.len(),
{
    if w.len() > 0 {
        assert((x + w).drop_last() =~= x + w.drop_last());
        assert(is_ws(w[w.len() - 1]));
        lemma_trim_end_append_ws(x, w.drop_last());
    } else {
        assert(x + w =~= x);
    }
}

/// `trim_end` keeps a prefix and drops only white space.
pub proof fn lemma_trim_end_split(c: Seq<char>)
    ensures
        trim_end(c).len() <= c.len(),
        trim_end(c) == c.take(trim_end(c).len() as int),
        all_ws(c.skip(trim_end(c).len() as int)),
    decreases c.len(),
{
    if c.len() > 0 && is_ws(c.last()) {
        lemma_trim_end_split(c.drop_last());
        let n = trim_end(c).len() as int;
        assert(c.drop_last().take(n) =~= c.take(n));
        assert forall|i: int| 0 <= i < c.skip(n).len() implies is_ws(#[trigger] c.skip(n)[i]) by {
            if i < c.skip(n).len() - 1 {
                assert(c.skip(n)[i] == c.drop_last().skip(n)[i]);
            }
        }
    } else {
        assert(c.take(c.len() as int) =~= c);
    }
}

/// A text of white space trims to nothing at its start.
proof fn lemma_trim_start_all_ws(w: Seq<char>)
    requires
        all_ws(w),
    ensures
        trim_start(w).len() == 0,
    decreases w.len(),
{
    if w.len() > 0 {
        assert(is_ws(w[0]));
        lemma_trim_start_all_ws(w.drop_first());
    }
}

/// Leading text with something left after `trim_start` keeps what follows.
proof fn lemma_trim_start_append(x: Seq<char>, y: Seq<char>)
    requires
        trim_start(x).len() > 0,
    ensures
        trim_start(x + y) == trim_start(x) + y,
    decreases x.len(),
{
    if x.len() > 0 && is_ws(x[0]) {
        assert((x + y).drop_first() =~= x.drop_first() + y);
        lemma_trim_start_append(x.drop_first(), y);
    } else {
        assert(x.len() > 0);
        assert((x + y)[0] == x[0]);
    }
}

/// Leading white space is skipped entirely.
proof fn lemma_trim_start_ws_prefix(x: Seq<char>, y: Seq<char>)
    requires
        all_ws(x),
    ensures
        trim_start(x + y) == trim_start(y),
    decreases x.len(),
{
    if x.len() > 0 {
        assert(is_ws(x[0]));
        assert((x + y).drop_first() =~= x.drop_first() + y);
        lemma_trim_start_ws_prefix(x.drop_first(), y);
    } else {
        assert(x + y =~= y);
    }
}

/// Trailing white space does not change what `trim` keeps.
pub proof fn lemma_trim_append_ws(x: Seq<char>, w: Seq<char>)
    requires
        all_ws(w),
    ensures
        trim(x + w) == trim(x),
{
    if trim_start(x).len() > 0 {
        lemma_trim_start_append(x, w);
        lemma_trim_end_append_ws(trim_start(x), w);
    } else {
        lemma_trim_start_split(x);
        let k = x.len() - trim_start(x).len();
        assert(x.skip(k).len() == 0);
        assert(x =~= x.take(k));
        lemma_trim_start_ws_prefix(x, w);
        lemma_trim_start_all_ws(w);
    }
}

/// `trim_start` drops only white space.
proof fn lemma_trim_start_split(c: Seq<char>)
    ensures
        trim_start(c).len() <= c.len(),
        trim_start(c) == c.skip(c.len() - trim_start(c).len()),
        all_ws(c.take(c.len() - trim_start(c).len())),
    decreases c.len(),
{
    if c.len() > 0 && is_ws(c[0]) {
        lemma_trim_start_split(c.drop_first());
        let k = c.len() - trim_start(c).len();
        assert(c.drop_first().skip(k - 1) =~= c.skip(k));
        assert forall|i: int| 0 <= i < c.take(k).len() implies is_ws(#[trigger] c.take(k)[i]) by {
            if i > 0 {
                assert(c.take(k)[i] == c.drop_first().take(k - 1)[i - 1]);
            }
        }
    } else {
        assert(c.skip(0) =~= c);
    }
}

/// Trimming the end first does not change what `trim` keeps.
pub proof fn lemma_trim_of_trim_end(c: Seq<char>)
    ensures
        trim(trim_end(c)) == trim(c),
{
    lemma_trim_end_split(c);
    let n = trim_end(c).len() as int;
    assert(c =~= c.take(n) + c.skip(n));
    lemma_trim_append_ws(c.take(n), c.skip(n));
}

} // verus!




