//! Matching a target directory against the registered projects, and the
//! short texts that the project listing shows.

use vstd::prelude::*;
use crate::paths::{
    clean_path, cleaned, file_name, file_name_of, normalize_path, normalized, trim_end_char,
    trim_end_char_vec,
};
use crate::registry::names_of;
use crate::text::{
    byte_count, byte_len, ascii_lower_chars, ascii_lower_seq, chars_of, has_prefix, lower_of,
    push_all, push_char, push_str, starts_with, string_of, to_lower,
};
use crate::paths::{chars_eq, trim, trim_chars};
use crate::text::{lemma_ascii_boundary, has_char, has_suffix, is_ascii_seq, split_all, split_on};
use vstd::string::StringSliceAdditionalSpecFns;
use vstd::utf8::{decode_utf8, encode_utf8, encode_utf8_decode_utf8, is_char_boundary};

verus! {

broadcast use vstd::string::group_string_axioms;

/// How two paths are compared: without a `\\?\` marker, lower-cased.
pub open spec fn path_key(p: Seq<char>) -> Seq<char> {
    lower_of(cleaned(p))
}

/// `target` is `root` itself or lies inside it (after either separator).
pub open spec fn within_root(target: Seq<char>, root: Seq<char>) -> bool {
    ||| target == root
    ||| has_prefix(target, root.push('\\'))
    ||| has_prefix(target, root.push('/'))
}

/// The first of `roots[i..]` that contains `target`, by index.
pub open spec fn first_root(target: Seq<char>, roots: Seq<Seq<char>>, i: int) -> Option<int>
    decreases roots.len() - i,
{
    if i < 0 || i >= roots.len() {
        None
    } else if within_root(path_key(target), path_key(roots[i])) {
        Some(i)
    } else {
        first_root(target, roots, i + 1)
    }
}

/// The comparison key of a path, as characters.
fn key_of(path: &str) -> (r: Vec<char>)
    ensures
        r@ == path_key(path@),
{
    let c = clean_path(path);
    let l = to_lower(c.as_str());
    chars_of(l.as_str())
}

/// `v` followed by `c`.
fn with_char(v: &Vec<char>, c: char) -> (r: Vec<char>)
    ensures
        r@ == v@.push(c),
{
    let mut r: Vec<char> = Vec::new();
    let mut i: usize = 0;
    while i < v.len()
        invariant
            i <= v@.len(),
            r@ == v@.take(i as int),
        decreases v@.len() - i,
    {
        r.push(v[i]);
        assert(v@.take(i + 1) =~= v@.take(i as int).push(v@[i as int]));
        i += 1;
    }
    assert(v@.take(i as int) =~= v@);
    r.push(c);
    r
}

/// The index of the first of `registered_roots` that contains `target_path`.
fn find_root(target_path: &str, registered_roots: &[String]) -> (r: Option<usize>)
    ensures
        match r {
            Some(i) => i < registered_roots@.len() && first_root(
                target_path@,
                names_of(registered_roots@),
                0,
            ) == Some(i as int),
            None => first_root(target_path@, names_of(registered_roots@), 0) is None,
        },
{
    let tk = key_of(target_path);
    let ghost roots = names_of(registered_roots@);
    let mut i: usize = 0;
    while i < registered_roots.len()
        invariant
            i <= registered_roots@.len(),
            roots == names_of(registered_roots@),
            tk@ == path_key(target_path@),
            first_root(target_path@, roots, 0) == first_root(target_path@, roots, i as int),
        decreases registered_roots@.len() - i,
    {
        let rk = key_of(registered_roots[i].as_str());
        let back = with_char(&rk, '\\');
        let fwd = with_char(&rk, '/');
        assert(roots[i as int] == registered_roots@[i as int]@);
        if chars_eq(&tk, &rk) || starts_with(&tk, &back) || starts_with(&tk, &fwd) {
            return Some(i);
        }
        i += 1;
    }
    None
}

/// The project root of `target_path`: the first of the registered roots
/// (canonical paths, in the order given) that the target equals or lies
/// inside, compared without `\\?\` markers and case-insensitively; the target
/// itself when none does.
pub fn resolve_project_root(target_path: &str, registered_roots: &[String]) -> (r: String)
    ensures
        r@ == (match first_root(target_path@, names_of(registered_roots@), 0) {
            Some(i) => registered_roots@[i]@,
            None => target_path@,
        }),
{
    match find_root(target_path, registered_roots) {
        Some(i) => {
            assert(names_of(registered_roots@)[i as int] == registered_roots@[i as int]@);
            registered_roots[i].clone()
        },
        None => target_path.to_owned(),
    }
}

/// Whether a scan of `canonical_target` is allowed without `--force`: the
/// target is one of the registered project roots or lies inside one,
/// compared without `\\?\` markers and case-insensitively.
pub fn is_registered_target(canonical_target: &str, registered_roots: &[String]) -> (r: bool)
    ensures
        r == (first_root(canonical_target@, names_of(registered_roots@), 0) is Some),
{
    find_root(canonical_target, registered_roots).is_some()
}

/// Why a scan is refused before it touches the store.
#[derive(Debug, Clone, Copy, PartialEq, Eq, Structural)]
pub enum ScanRefusal {
    /// The target is not a registered project and lies in none.
    NotRegistered,
    /// The target is a root from which indexing is never allowed.
    CriticalRoot,
}

/// An optional text as an optional character sequence.
pub open spec fn opt_view(o: Option<&str>) -> Option<Seq<char>> {
    match o {
        Some(t) => Some(t@),
        None => None,
    }
}

/// The checks a scan makes before it touches the store: without `force`,
/// the target must lie in a registered project, and then must not be a
/// critical root; with `force` both are skipped.
pub fn scan_precheck(
    canonical_target: &str,
    registered_roots: &[String],
    root_like: bool,
    user_profile: Option<&str>,
    home: Option<&str>,
    force: bool,
) -> (r: Result<(), ScanRefusal>)
    ensures
        r == if force {
            Ok::<(), ScanRefusal>(())
        } else if !(first_root(canonical_target@, names_of(registered_roots@), 0) is Some) {
            Err(ScanRefusal::NotRegistered)
        } else if is_critical(canonical_target@, root_like, opt_view(user_profile), opt_view(home)) {
            Err(ScanRefusal::CriticalRoot)
        } else {
            Ok(())
        },
{
    if force {
        return Ok(());
    }
    if !is_registered_target(canonical_target, registered_roots) {
        return Err(ScanRefusal::NotRegistered);
    }
    if is_critical_root(canonical_target, root_like, user_profile, home) {
        return Err(ScanRefusal::CriticalRoot);
    }
    Ok(())
}

/// The first of `registered[i..]` whose path is the same directory as
/// `target`, by index.
pub open spec fn first_same(target: Seq<char>, registered: Seq<(String, String)>, i: int) -> Option<
    int,
>
    decreases registered.len() - i,
{
    if i < 0 || i >= registered.len() {
        None
    } else if path_key(registered[i].1@) == path_key(target) {
        Some(i)
    } else {
        first_same(target, registered, i + 1)
    }
}

/// The folder name used for a directory that is not registered.
pub open spec fn folder_or_unknown(p: Seq<char>) -> Seq<char> {
    match file_name(p) {
        Some(n) => n,
        None => "unknown"@,
    }
}

/// The name of the project that `canonical_target` (a canonical path) is the
/// root of, and the path without its `\\?\` marker: the name of the first of
/// the `(name, canonical path)` registrations whose path is the same
/// directory (compared without markers, case-insensitively), else
/// `unregistered-` and the folder's name (`unknown` when it has none).
pub fn get_project_identifier(canonical_target: &str, registered: &[(String, String)]) -> (r: (
    String,
    String,
))
    ensures
        r.1@ == cleaned(canonical_target@),
        r.0@ == (match first_same(canonical_target@, registered@, 0) {
            Some(i) => registered@[i].0@,
            None => "unregistered-"@ + folder_or_unknown(canonical_target@),
        }),
{
    let clean_target = clean_path(canonical_target);
    let tk = key_of(canonical_target);
    let mut i: usize = 0;
    while i < registered.len()
        invariant
            i <= registered@.len(),
            tk@ == path_key(canonical_target@),
            clean_target@ == cleaned(canonical_target@),
            first_same(canonical_target@, registered@, 0) == first_same(
                canonical_target@,
                registered@,
                i as int,
            ),
        decreases registered@.len() - i,
    {
        let rk = key_of(registered[i].1.as_str());
        if chars_eq(&tk, &rk) {
            return (registered[i].0.clone(), clean_target);
        }
        i += 1;
    }
    let mut name = "unregistered-".to_owned();
    let cv = chars_of(canonical_target);
    match file_name_of(&cv) {
        Some(n) => push_all(&mut name, &n),
        None => push_str(&mut name, "unknown"),
    }
    (name, clean_target)
}

/// The message given for a directory that is not registered.
pub open spec fn unregistered_message() -> Seq<char> {
    "Error: Este directorio no está registrado en ozymem. Ejecuta 'ozymem register' primero para autorizarlo."@
}

/// The path text that the registry is searched for: the target without its
/// `\\?\` marker, lower-cased, in stored form.
pub open spec fn registry_search_key(canonical: Seq<char>) -> Seq<char> {
    normalized(lower_of(cleaned(canonical)))
}

/// Whether `paths` holds one that equals `key` when both are ASCII
/// lower-cased (the comparison the registry makes).
pub open spec fn registry_has_path(paths: Seq<Seq<char>>, key: Seq<char>) -> bool {
    exists|i: int| 0 <= i < paths.len() && ascii_lower_seq(#[trigger] paths[i]) == ascii_lower_seq(key)
}

/// `Ok` when the directory `canonical_target` (a canonical path) is among
/// the registered project paths `registered_paths`, compared as the registry
/// does: the target without its `\\?\` marker, lower-cased and in stored
/// form, equal to a registered path up to ASCII case. Otherwise the error
/// that tells the user to register it.
pub fn check_directory_authorized(canonical_target: &str, registered_paths: &[String]) -> (r: Result<
    (),
    String,
>)
    ensures
        r is Ok <==> registry_has_path(
            names_of(registered_paths@),
            registry_search_key(canonical_target@),
        ),
        r matches Err(e) ==> e@ == unregistered_message(),
{
    let c = clean_path(canonical_target);
    let l = to_lower(c.as_str());
    let n = normalize_path(l.as_str());
    let nv = chars_of(n.as_str());
    let key = ascii_lower_chars(&nv);
    let ghost paths = names_of(registered_paths@);
    let mut i: usize = 0;
    while i < registered_paths.len()
        invariant
            i <= registered_paths@.len(),
            paths == names_of(registered_paths@),
            key@ == ascii_lower_seq(registry_search_key(canonical_target@)),
            forall|j: int| 0 <= j < i ==> ascii_lower_seq(#[trigger] paths[j]) != key@,
        decreases registered_paths@.len() - i,
    {
        let pv = chars_of(registered_paths[i].as_str());
        let pk = ascii_lower_chars(&pv);
        if chars_eq(&pk, &key) {
            assert(ascii_lower_seq(paths[i as int]) == key@);
            return Ok(());
        }
        i += 1;
    }
    Err("Error: Este directorio no está registrado en ozymem. Ejecuta 'ozymem register' primero para autorizarlo.".to_owned())
}

/// How a path is compared with the guarded roots: lower-cased, then without
/// trailing `\`, then without trailing `/`.
pub open spec fn guard_key(s: Seq<char>) -> Seq<char> {
    trim_end_char(trim_end_char(lower_of(s), '\\'), '/')
}

/// Whether indexing from `path` is refused without `--force`: a root
/// (`root_like`, which the caller reads off the path's components: at most
/// one component, or a drive followed by its root), the users folder of
/// drive C:, or the user's profile or home folder (when those are set).
pub open spec fn is_critical(
    path: Seq<char>,
    root_like: bool,
    user_profile: Option<Seq<char>>,
    home: Option<Seq<char>>,
) -> bool {
    ||| root_like
    ||| guard_key(path) == "c:\\users"@
    ||| guard_key(path) == "c:/users"@
    ||| (user_profile matches Some(u) && guard_key(path) == guard_key(u))
    ||| (home matches Some(h) && guard_key(path) == guard_key(h))
}

fn guard_key_of(s: &str) -> (r: Vec<char>)
    ensures
        r@ == guard_key(s@),
{
    let l = to_lower(s);
    let mut v = chars_of(l.as_str());
    trim_end_char_vec(&mut v, '\\');
    trim_end_char_vec(&mut v, '/');
    v
}

/// Whether indexing from `path` is refused without `--force` (see
/// `is_critical`); `user_profile` and `home` are the values of the
/// `USERPROFILE` and `HOME` variables, when set.
pub fn is_critical_root(path: &str, root_like: bool, user_profile: Option<&str>, home: Option<&str>) -> (r: bool)
    ensures
        r == is_critical(
            path@,
            root_like,
            match user_profile {
                Some(u) => Some(u@),
                None => None,
            },
            match home {
                Some(h) => Some(h@),
                None => None,
            },
        ),
{
    if root_like {
        return true;
    }
    let k = guard_key_of(path);
    let users_back = chars_of("c:\\users");
    let users_fwd = chars_of("c:/users");
    if chars_eq(&k, &users_back) || chars_eq(&k, &users_fwd) {
        return true;
    }
    if let Some(u) = user_profile {
        if chars_eq(&k, &guard_key_of(u)) {
            return true;
        }
    }
    if let Some(h) = home {
        if chars_eq(&k, &guard_key_of(h)) {
            return true;
        }
    }
    false
}


/// The separator a path is shortened at: `\` when it has one, else `/`.
pub open spec fn path_sep(s: Seq<char>) -> char {
    if s.contains('\\') {
        '\\'
    } else {
        '/'
    }
}

/// One step of shortening, from the last component backwards: the kept tail,
/// the length it will take (with the leading `...`), and whether shortening
/// has stopped.
pub open spec fn shorten_step(st: (Seq<char>, int, bool), comp: Seq<char>, sep: char, max: int) -> (
    Seq<char>,
    int,
    bool,
) {
    if st.2 {
        st
    } else if st.1 + byte_len(comp) + 1 > max {
        (st.0, st.1, true)
    } else {
        (
            if st.0.len() == 0 {
                comp
            } else {
                comp + seq![sep] + st.0
            },
            st.1 + byte_len(comp) + 1,
            false,
        )
    }
}

/// The shortening state after the last `k` components.
pub open spec fn shorten_run(comps: Seq<Seq<char>>, k: nat, sep: char, max: int) -> (
    Seq<char>,
    int,
    bool,
)
    decreases k,
{
    if k == 0 || k > comps.len() {
        (Seq::empty(), 3, false)
    } else {
        shorten_step(shorten_run(comps, (k - 1) as nat, sep, max), comps[comps.len() - k], sep, max)
    }
}

/// The components kept when `s` is shortened to `max` bytes, joined.
pub open spec fn kept_tail(s: Seq<char>, max: int) -> Seq<char> {
    let comps = split_on(s, path_sep(s));
    shorten_run(comps, comps.len(), path_sep(s), max).0
}

/// Shortening keeps no component and has to cut the text itself.
pub open spec fn shorten_cuts(s: Seq<char>, max: int) -> bool {
    byte_len(s) > max && kept_tail(s, max).len() == 0
}

/// A path shown in at most about `max` bytes: itself when it fits; else
/// `...`, the separator and as many trailing components as fit; else `...`
/// and the last `max - 3` bytes.
pub open spec fn shortened(s: Seq<char>, max: int) -> Seq<char> {
    if byte_len(s) <= max {
        s
    } else if kept_tail(s, max).len() == 0 {
        "..."@ + decode_utf8(encode_utf8(s).subrange(byte_len(s) - max + 3, byte_len(s)))
    } else {
        "..."@ + seq![path_sep(s)] + kept_tail(s, max)
    }
}

proof fn lemma_stopped_stays(comps: Seq<Seq<char>>, k: nat, j: nat, sep: char, max: int)
    requires
        k <= j <= comps.len(),
        shorten_run(comps, k, sep, max).2,
    ensures
        shorten_run(comps, j, sep, max) == shorten_run(comps, k, sep, max),
    decreases j - k,
{
    if j > k {
        lemma_stopped_stays(comps, k, (j - 1) as nat, sep, max);
    }
}

/// `a`, then `sep`, then `b`.
fn joined_with(a: &Vec<char>, sep: char, b: &Vec<char>) -> (r: Vec<char>)
    ensures
        r@ == a@ + seq![sep] + b@,
{
    let mut r = with_char(a, sep);
    let mut i: usize = 0;
    let ghost start = r@;
    while i < b.len()
        invariant
            i <= b@.len(),
            r@ == start + b@.take(i as int),
        decreases b@.len() - i,
    {
        r.push(b[i]);
        assert(b@.take(i + 1) =~= b@.take(i as int).push(b@[i as int]));
        i += 1;
    }
    assert(b@.take(i as int) =~= b@);
    r
}

/// The trailing components that fit, joined with `sep`.
fn keep_tail(v: &Vec<char>, sep: char, max_len: usize) -> (r: Vec<char>)
    ensures
        r@ == shorten_run(split_on(v@, sep), split_on(v@, sep).len(), sep, max_len as int).0,
{
    let comps = split_all(v, sep);
    let ghost cs = split_on(v@, sep);
    let mut result: Vec<char> = Vec::new();
    let mut cur: usize = 3;
    let mut k: usize = 0;
    while k < comps.len()
        invariant
            k <= comps@.len(),
            cs == split_on(v@, sep),
            comps@.len() == cs.len(),
            forall|i: int| 0 <= i < comps@.len() ==> #[trigger] comps@[i]@ == cs[i],
            shorten_run(cs, k as nat, sep, max_len as int) == (result@, cur as int, false),
        decreases comps@.len() - k,
    {
        let comp = &comps[comps.len() - 1 - k];
        let cl = byte_count(comp);
        assert(comp@ == cs[cs.len() - (k + 1)]);
        if cur > max_len || cl >= max_len - cur {
            proof {
                assert(shorten_run(cs, (k + 1) as nat, sep, max_len as int) == (
                    result@,
                    cur as int,
                    true,
                ));
                lemma_stopped_stays(cs, (k + 1) as nat, cs.len(), sep, max_len as int);
            }
            return result;
        }
        if result.len() == 0 {
            result = comp.clone();
            assert(result@ =~= comp@);
        } else {
            result = joined_with(comp, sep, &result);
        }
        cur = cur + cl + 1;
        k += 1;
    }
    result
}

/// Whether `shorten_path` has to cut the path text itself (no trailing
/// component fits in `max_len` bytes).
pub fn shorten_needs_cut(path_str: &str, max_len: usize) -> (r: bool)
    ensures
        r == shorten_cuts(path_str@, max_len as int),
{
    if path_str.as_bytes().len() <= max_len {
        return false;
    }
    let v = chars_of(path_str);
    let sep = if has_char(&v, '\\') {
        '\\'
    } else {
        '/'
    };
    let tail = keep_tail(&v, sep, max_len);
    tail.len() == 0
}

/// A path shown in at most about `max_len` bytes: the path itself when it
/// fits; else `...`, the separator (`\` if the path has one, else `/`) and as
/// many trailing components as fit; else `...` and the path's last
/// `max_len - 3` bytes.
pub fn shorten_path(path_str: &str, max_len: usize) -> (r: String)
    requires
        shorten_cuts(path_str@, max_len as int) ==> max_len >= 3 && is_char_boundary(
            encode_utf8(path_str@),
            byte_len(path_str@) - max_len + 3,
        ),
    ensures
        r@ == shortened(path_str@, max_len as int),
{
    let n = path_str.as_bytes().len();
    if n <= max_len {
        return path_str.to_owned();
    }
    let v = chars_of(path_str);
    let sep = if has_char(&v, '\\') {
        '\\'
    } else {
        '/'
    };
    let tail = keep_tail(&v, sep, max_len);
    let mut r = "...".to_owned();
    if tail.len() == 0 {
        let (_head, rest) = path_str.split_at(n - max_len + 3);
        proof {
            encode_utf8_decode_utf8(rest@);
        }
        push_str(&mut r, rest);
    } else {
        push_char(&mut r, sep);
        push_all(&mut r, &tail);
    }
    r
}

/// Pieces joined with `sep` between them.
pub open spec fn join_sep(cs: Seq<Seq<char>>, sep: char) -> Seq<char>
    decreases cs.len(),
{
    if cs.len() == 0 {
        Seq::empty()
    } else if cs.len() == 1 {
        cs[0]
    } else {
        cs[0] + seq![sep] + join_sep(cs.drop_first(), sep)
    }
}

/// The bytes of two texts one after the other are the two byte strings.
proof fn lemma_encode_concat(a: Seq<char>, b: Seq<char>)
    ensures
        encode_utf8(a + b) == encode_utf8(a) + encode_utf8(b),
    decreases a.len(),
{
    if a.len() > 0 {
        assert((a + b)[0] == a[0]);
        assert((a + b).drop_first() =~= a.drop_first() + b);
        lemma_encode_concat(a.drop_first(), b);
    } else {
        assert(a + b =~= b);
    }
}

/// An ASCII text has one byte per character, and its bytes from any place
/// on are the bytes of its characters from there on.
proof fn lemma_ascii_bytes(s: Seq<char>, a: int)
    requires
        is_ascii_seq(s),
        0 <= a <= s.len(),
    ensures
        encode_utf8(s).len() == s.len(),
        encode_utf8(s).subrange(a, s.len() as int) == encode_utf8(s.subrange(a, s.len() as int)),
    decreases s.len(),
{
    if s.len() > 0 {
        let t = s.drop_first();
        assert(is_ascii_seq(t)) by {
            assert forall|i: int| 0 <= i < t.len() implies (t[i] as u32) < 128 by {
                assert(t[i] == s[i + 1]);
            }
        }
        assert((s[0] as u32) < 128);
        assert(encode_scalar_len_one(s[0] as u32));
        if a > 0 {
            lemma_ascii_bytes(t, a - 1);
            assert(s.subrange(a, s.len() as int) =~= t.subrange(a - 1, t.len() as int));
            assert(encode_utf8(s).subrange(a, s.len() as int) =~= encode_utf8(t).subrange(
                a - 1,
                t.len() as int,
            ));
        } else {
            lemma_ascii_bytes(t, 0);
            assert(s.subrange(0, s.len() as int) =~= s);
            assert(encode_utf8(s).subrange(0, s.len() as int) =~= encode_utf8(s));
        }
    } else {
        assert(s.subrange(a, s.len() as int) =~= s);
    }
}

/// An ASCII scalar is one byte long.
pub open spec fn encode_scalar_len_one(c: u32) -> bool {
    c < 128 ==> vstd::utf8::encode_scalar(c).len() == 1
}

/// A path separator is one byte long.
proof fn lemma_sep_byte(sep: char)
    requires
        sep == '/' || sep == '\\',
    ensures
        byte_len(seq![sep]) == 1,
{
    assert((sep as u32) < 128);
    assert(encode_scalar_len_one(sep as u32));
    let x = seq![sep];
    assert(x.drop_first() =~= Seq::<char>::empty());
    assert(x[0] == sep);
    assert(encode_utf8(Seq::<char>::empty()).len() == 0);
    assert(encode_utf8(x) == vstd::utf8::encode_scalar(sep as u32) + encode_utf8(x.drop_first()));
    assert(vstd::utf8::encode_scalar(sep as u32).len() == 1);
}

/// A text of at least one character has at least one byte.
proof fn lemma_bytes_nonempty(s: Seq<char>)
    requires
        s.len() > 0,
    ensures
        byte_len(s) > 0,
{
}

/// Joining pieces then one more is joining the pieces, `sep` and the last.
proof fn lemma_join_push(cs: Seq<Seq<char>>, x: Seq<char>, sep: char)
    requires
        cs.len() >= 1,
    ensures
        join_sep(cs.push(x), sep) == join_sep(cs, sep) + seq![sep] + x,
    decreases cs.len(),
{
    let p = cs.push(x);
    assert(p[0] == cs[0]);
    if cs.len() == 1 {
        assert(p.drop_first() =~= seq![x]);
        assert(join_sep(seq![x], sep) == x);
        assert(join_sep(p, sep) =~= join_sep(cs, sep) + seq![sep] + x);
    } else {
        assert(p.drop_first() =~= cs.drop_first().push(x));
        lemma_join_push(cs.drop_first(), x, sep);
        assert(join_sep(p, sep) =~= join_sep(cs, sep) + seq![sep] + x);
    }
}

/// Splitting at `sep` and joining with `sep` gives the text back.
proof fn lemma_join_split(s: Seq<char>, sep: char)
    ensures
        join_sep(split_on(s, sep), sep) == s,
    decreases s.len(),
{
    crate::text::lemma_split_on_len(s, sep);
    if s.len() > 0 {
        let r = split_on(s.drop_last(), sep);
        lemma_join_split(s.drop_last(), sep);
        crate::text::lemma_split_on_len(s.drop_last(), sep);
        let init = r.drop_last();
        if s.last() == sep {
            lemma_join_push(r, Seq::empty(), sep);
            assert(s =~= s.drop_last() + seq![sep] + Seq::<char>::empty());
        } else {
            let y = r.last().push(s.last());
            assert(r.update(r.len() - 1, y) =~= init.push(y));
            if init.len() == 0 {
                assert(r =~= seq![r.last()]);
                assert(init.push(y) =~= seq![y]);
                assert(s =~= s.drop_last().push(s.last()));
            } else {
                lemma_join_push(init, y, sep);
                assert(r =~= init.push(r.last()));
                lemma_join_push(init, r.last(), sep);
                assert(s =~= s.drop_last().push(s.last()));
            }
        }
    }
}

/// Joining splits at any inner place into the two joins around `sep`.
proof fn lemma_join_split_at(cs: Seq<Seq<char>>, m: int, sep: char)
    requires
        0 < m < cs.len(),
    ensures
        join_sep(cs, sep) == join_sep(cs.take(m), sep) + seq![sep] + join_sep(cs.skip(m), sep),
    decreases m,
{
    if m == 1 {
        assert(cs.take(1) =~= seq![cs[0]]);
        assert(cs.skip(1) =~= cs.drop_first());
    } else {
        let t = cs.drop_first();
        lemma_join_split_at(t, m - 1, sep);
        assert(cs.take(m).drop_first() =~= t.take(m - 1));
        assert(cs.skip(m) =~= t.skip(m - 1));
        assert(cs.take(m)[0] == cs[0]);
    }
}

/// What the shortening run keeps: nothing yet (at length 3), or the last `j`
/// components joined, its length with `...` and the separator; a run that
/// has not stopped has kept every component it saw.
proof fn lemma_shorten_run_shape(comps: Seq<Seq<char>>, k: nat, sep: char, max: int)
    requires
        max >= 3,
        comps.len() >= 1,
        comps.last().len() > 0,
        k <= comps.len(),
        sep == '/' || sep == '\\',
    ensures
        ({
            let r = shorten_run(comps, k, sep, max);
            let n = comps.len() as int;
            &&& r.1 <= max
            &&& (r.0.len() == 0 && r.1 == 3) || exists|j: int|
                1 <= j <= k && r.0 == #[trigger] join_sep(comps.subrange(n - j, n), sep) && r.1
                    == byte_len(r.0) + 4
            &&& !r.2 ==> (k == 0 || (r.0.len() > 0 && r.0 == join_sep(
                comps.subrange(n - k, n),
                sep,
            )))
        }),
    decreases k,
{
    let n = comps.len() as int;
    if k > 0 {
        lemma_shorten_run_shape(comps, (k - 1) as nat, sep, max);
        let prev = shorten_run(comps, (k - 1) as nat, sep, max);
        let comp = comps[n - k];
        let r = shorten_run(comps, k, sep, max);
        assert(r == shorten_step(prev, comp, sep, max));
        if !prev.2 && prev.1 + byte_len(comp) + 1 <= max {
            let sub = comps.subrange(n - k, n);
            assert(sub.drop_first() =~= comps.subrange(n - (k - 1), n));
            assert(sub[0] == comp);
            lemma_sep_byte(sep);
            if prev.0.len() == 0 {
                assert(k == 1);
                assert(sub =~= seq![comp]);
                assert(comp == comps.last());
                lemma_bytes_nonempty(comp);
                assert(r.0 == join_sep(sub, sep));
            } else {
                assert(k >= 2);
                lemma_encode_concat(comp, seq![sep]);
                lemma_encode_concat(comp + seq![sep], prev.0);
                assert(r.0 == join_sep(sub, sep));
            }
            assert(r.0 == join_sep(comps.subrange(n - k, n), sep));
        }
    }
}

/// An ASCII path meets `shorten_path`'s demand for any limit of at least 3:
/// where the path is cut to its last bytes, the cut falls on a character
/// boundary.
pub proof fn lemma_ascii_shorten_cut(path: Seq<char>, max_len: int)
    requires
        is_ascii_seq(path),
        max_len >= 3,
    ensures
        shorten_cuts(path, max_len) ==> max_len >= 3 && is_char_boundary(
            encode_utf8(path),
            byte_len(path) - max_len + 3,
        ),
{
    lemma_ascii_boundary(path, 0);
    if byte_len(path) > max_len {
        lemma_ascii_boundary(path, byte_len(path) - max_len + 3);
    }
}

/// A shortened ASCII path fits in `max` bytes: a path that fits is kept
/// whole, and a path that does not is `...` followed by an ending of the
/// path (for a path that does not end with a separator).
pub proof fn lemma_shortened_fits(s: Seq<char>, max: int)
    requires
        max >= 3,
        is_ascii_seq(s),
        s.len() > 0,
        s.last() != '/' && s.last() != '\\',
    ensures
        byte_len(shortened(s, max)) <= max,
        byte_len(s) <= max ==> shortened(s, max) == s,
        byte_len(s) > max ==> has_prefix(shortened(s, max), "..."@) && has_suffix(
            s,
            shortened(s, max).skip(3),
        ),
{
    let sep = path_sep(s);
    let comps = split_on(s, sep);
    let n = comps.len() as int;
    reveal_strlit("...");
    lemma_ascii_bytes(s, 0);
    let dots = "..."@;
    assert(is_ascii_seq(dots));
    lemma_ascii_bytes(dots, 0);
    if byte_len(s) > max {
        crate::text::lemma_split_on_len(s, sep);
        assert(comps.last().len() > 0) by {
            crate::text::lemma_split_on_len(s.drop_last(), sep);
        }
        lemma_shorten_run_shape(comps, comps.len(), sep, max);
        let tail = kept_tail(s, max);
        let r = shortened(s, max);
        if tail.len() == 0 {
            let a = byte_len(s) - max + 3;
            lemma_ascii_bytes(s, a);
            let rest = s.subrange(a, s.len() as int);
            encode_utf8_decode_utf8(rest);
            assert(is_ascii_seq(rest)) by {
                assert forall|i: int| 0 <= i < rest.len() implies (rest[i] as u32) < 128 by {
                    assert(rest[i] == s[a + i]);
                }
            }
            lemma_ascii_bytes(rest, 0);
            assert(r == dots + rest);
            lemma_encode_concat(dots, rest);
            assert(r.skip(3) =~= rest);
            assert(r.take(3) =~= dots);
            assert(s.skip(s.len() - rest.len()) =~= rest);
        } else {
            let j = choose|j: int|
                1 <= j <= n && tail == #[trigger] join_sep(comps.subrange(n - j, n), sep) && shorten_run(
                    comps,
                    comps.len(),
                    sep,
                    max,
                ).1 == byte_len(tail) + 4;
            lemma_join_split(s, sep);
            if j == n {
                assert(comps.subrange(0, n) =~= comps);
                assert(false);
            }
            lemma_join_split_at(comps, n - j, sep);
            assert(comps.skip(n - j) =~= comps.subrange(n - j, n));
            let front = join_sep(comps.take(n - j), sep);
            let st = seq![sep] + tail;
            assert(s =~= front + st);
            lemma_sep_byte(sep);
            lemma_encode_concat(dots, seq![sep]);
            lemma_encode_concat(dots + seq![sep], tail);
            assert(r == dots + seq![sep] + tail);
            assert(r.skip(3) =~= st);
            assert(r.take(3) =~= dots);
            assert(s.skip(s.len() - st.len()) =~= st);
        }
    }
}

/// The non-blank lines among `pieces`, trimmed, in order.
pub open spec fn nonblank(pieces: Seq<Seq<char>>) -> Seq<Seq<char>>
    decreases pieces.len(),
{
    if pieces.len() == 0 {
        Seq::empty()
    } else if trim(pieces.last()).len() > 0 {
        nonblank(pieces.drop_last()).push(trim(pieces.last()))
    } else {
        nonblank(pieces.drop_last())
    }
}

/// The last non-blank line of a log, trimmed (a line ending in `\r\n` or
/// `\n` reads the same as with `str::lines`, since trimming drops the `\r`).
pub open spec fn last_line(content: Seq<char>) -> Option<Seq<char>> {
    let ls = nonblank(split_on(content, '\n'));
    if ls.len() == 0 {
        None
    } else {
        Some(ls.last())
    }
}

/// What the listing shows of a watcher's log: its last non-blank line,
/// trimmed, cut to 57 bytes and `...` when longer than 60 bytes; a fixed text
/// for a log without one.
pub open spec fn log_summary(content: Seq<char>) -> Seq<char> {
    match last_line(content) {
        None => "Bitacora vacia."@,
        Some(l) => if byte_len(l) > 60 {
            decode_utf8(encode_utf8(l).take(57)) + "..."@
        } else {
            l
        },
    }
}

/// The 57-byte cut of a long last line falls between two characters.
pub open spec fn log_cut_at_boundary(content: Seq<char>) -> bool {
    match last_line(content) {
        Some(l) => byte_len(l) > 60 ==> is_char_boundary(encode_utf8(l), 57),
        None => true,
    }
}

/// The last non-blank line of `content`, trimmed.
fn last_nonblank(content: &str) -> (r: Option<Vec<char>>)
    ensures
        match r {
            Some(l) => last_line(content@) == Some(l@),
            None => last_line(content@) is None,
        },
{
    let v = chars_of(content);
    let pieces = split_all(&v, '\n');
    let ghost ps = split_on(v@, '\n');
    let mut last: Option<Vec<char>> = None;
    let mut k: usize = 0;
    while k < pieces.len()
        invariant
            k <= pieces@.len(),
            ps == split_on(v@, '\n'),
            pieces@.len() == ps.len(),
            forall|i: int| 0 <= i < pieces@.len() ==> #[trigger] pieces@[i]@ == ps[i],
            match last {
                None => nonblank(ps.take(k as int)).len() == 0,
                Some(l) => nonblank(ps.take(k as int)).len() > 0 && l@ == nonblank(
                    ps.take(k as int),
                ).last(),
            },
        decreases pieces@.len() - k,
    {
        let t = trim_chars(&pieces[k]);
        proof {
            assert(ps.take(k + 1).drop_last() =~= ps.take(k as int));
            assert(ps.take(k + 1).last() == ps[k as int]);
        }
        if t.len() > 0 {
            last = Some(t);
        }
        k += 1;
    }
    proof {
        assert(ps.take(k as int) =~= ps);
    }
    last
}

/// Whether `last_log_line` can summarise `content`: the 57-byte cut of a
/// long last line falls between two characters.
pub fn log_cut_is_safe(content: &str) -> (r: bool)
    ensures
        r == log_cut_at_boundary(content@),
{
    match last_nonblank(content) {
        None => true,
        Some(l) => {
            let s = string_of(&l);
            let ls = s.as_str();
            ls.as_bytes().len() <= 60 || ls.is_char_boundary(57)
        },
    }
}

/// The summary of a watcher's log text `content` for the project listing.
pub fn last_log_line(content: &str) -> (r: String)
    requires
        log_cut_at_boundary(content@),
    ensures
        r@ == log_summary(content@),
{
    match last_nonblank(content) {
        None => "Bitacora vacia.".to_owned(),
        Some(l) => {
            let s = string_of(&l);
            let ls = s.as_str();
            if ls.as_bytes().len() > 60 {
                let (head, _rest) = ls.split_at(57);
                let mut r = head.to_owned();
                push_str(&mut r, "...");
                proof {
                    encode_utf8_decode_utf8(head@);
                    assert(encode_utf8(l@).subrange(0, 57) =~= encode_utf8(l@).take(57));
                }
                r
            } else {
                s
            }
        },
    }
}

} // verus!
