//! The git post-commit hook: what installing, removing and inspecting it do
//! to the hook file's text, and how a commit is read for the knowledge base.

use vstd::prelude::*;
use crate::paths::{
    all_ws, chars_eq, lemma_trim_append_ws, lemma_trim_end_split, lemma_trim_of_trim_end, trim,
    trim_chars, trim_end, trim_end_chars, trim_start,
};
use crate::text::is_ws;
use crate::query::{words, words_of};
use crate::text::{
    chars_of, contains, find_from, join_char, join_vecs, lower_chars, lower_of, occurs_at,
    occurs_in, push_char, push_str, starts_with, string_of, has_prefix, lines_of, text_lines,
};

verus! {

broadcast use vstd::string::group_string_axioms;

/// The command line that marks the hook as installed.
pub open spec fn hook_marker() -> Seq<char> {
    "ozymem hook run post-commit"@
}

/// The first line of the block that installing appends.
pub open spec fn block_start() -> Seq<char> {
    "# --- Ozymem automated knowledge capture ---"@
}

/// The last line of the block that installing appends.
pub open spec fn block_end() -> Seq<char> {
    "# --- End Ozymem ---"@
}

/// The block that installing appends to a post-commit hook.
pub open spec fn hook_snippet() -> Seq<char> {
    "\n# --- Ozymem automated knowledge capture ---\nif command -v ozymem >/dev/null 2>&1; then\n    ozymem hook run post-commit 2>/dev/null || true\nfi\n# --- End Ozymem ---\n"@
}

/// The text of a string, if there is one.
pub open spec fn opt_text(o: Option<&str>) -> Option<Seq<char>> {
    match o {
        Some(s) => Some(s@),
        None => None,
    }
}

/// What installing does to the hook file.
pub enum HookInstall {
    /// The hook already runs ozymem; nothing is written.
    AlreadyInstalled,
    /// The hook file is to hold this text.
    Write(String),
}

/// The text the hook file gets when installing into `existing` (`None` when
/// there is no hook file yet); `None` when the hook already runs ozymem.
pub open spec fn installed_text(existing: Option<Seq<char>>) -> Option<Seq<char>> {
    match existing {
        None => Some("#!/bin/sh\n"@ + hook_snippet()),
        Some(c) => if occurs_in(c, hook_marker()) {
            None
        } else {
            Some(trim_end(c) + seq!['\n'] + hook_snippet())
        },
    }
}

fn marker_chars() -> (r: Vec<char>)
    ensures
        r@ == hook_marker(),
{
    chars_of("ozymem hook run post-commit")
}

/// Installing the hook into a post-commit file holding `existing` (`None`
/// when there is none): a new file is a shell script with the block; a file
/// that already runs ozymem is left alone; any other file gets the block
/// after its text, trailing white space removed.
pub fn install_hook_content(existing: Option<&str>) -> (r: HookInstall)
    ensures
        match r {
            HookInstall::AlreadyInstalled => installed_text(opt_text(existing)) is None,
            HookInstall::Write(t) => installed_text(opt_text(existing)) == Some(t@),
        },
{
    match existing {
        None => {
            let mut t = "#!/bin/sh\n".to_owned();
            push_str(&mut t, "\n# --- Ozymem automated knowledge capture ---\nif command -v ozymem >/dev/null 2>&1; then\n    ozymem hook run post-commit 2>/dev/null || true\nfi\n# --- End Ozymem ---\n");
            HookInstall::Write(t)
        },
        Some(c) => {
            let v = chars_of(c);
            let marker = marker_chars();
            if contains(&v, &marker) {
                return HookInstall::AlreadyInstalled;
            }
            let kept = trim_end_chars(&v);
            let mut t = string_of(&kept);
            push_char(&mut t, '\n');
            push_str(&mut t, "\n# --- Ozymem automated knowledge capture ---\nif command -v ozymem >/dev/null 2>&1; then\n    ozymem hook run post-commit 2>/dev/null || true\nfi\n# --- End Ozymem ---\n");
            HookInstall::Write(t)
        },
    }
}

/// The lines that do not contain `n`, in order.
pub open spec fn lines_without(ls: Seq<Seq<char>>, n: Seq<char>) -> Seq<Seq<char>>
    decreases ls.len(),
{
    if ls.len() == 0 {
        Seq::empty()
    } else if occurs_in(ls.last(), n) {
        lines_without(ls.drop_last(), n)
    } else {
        lines_without(ls.drop_last(), n).push(ls.last())
    }
}

/// The lines of a hook text that do not run ozymem, joined with `\n`.
#[verifier::opaque]
pub open spec fn unmarked_lines(c: Seq<char>) -> Seq<char> {
    join_char(lines_without(text_lines(c), hook_marker()), '\n')
}

/// The hook text with ozymem taken out: the text before the block's first
/// line and after its last line, when both are there; else every line that
/// does not run ozymem.
pub open spec fn without_block(c: Seq<char>) -> Seq<char> {
    match (first_at(c, block_start(), 0), first_at(c, block_end(), 0)) {
        (Some(s), Some(e)) => c.take(s) + c.skip(e + block_end().len()),
        _ => unmarked_lines(c),
    }
}

/// What removing the hook does to a post-commit file.
pub enum HookRemoval {
    /// The file does not run ozymem; it is left alone.
    NotInstalled,
    /// Nothing but the shebang would be left: the file is deleted.
    RemoveFile,
    /// The file is to hold this text.
    Write(String),
}

/// What is left of a hook file holding `c` once ozymem is taken out:
/// `None` when it does not run ozymem, `Some(None)` when nothing but (at
/// most) the shebang is left, else the text to write.
pub open spec fn removal_text(c: Seq<char>) -> Option<Option<Seq<char>>> {
    if !occurs_in(c, hook_marker()) {
        None
    } else {
        let t = trim(without_block(c));
        if t.len() == 0 || t == "#!/bin/sh"@ {
            Some(None)
        } else {
            Some(Some(t.push('\n')))
        }
    }
}

/// The first index at or after `from` where `n` occurs in `h`.
pub open spec fn first_at(h: Seq<char>, n: Seq<char>, from: int) -> Option<int>
    decreases h.len() + 1 - from,
{
    if from < 0 || from > h.len() {
        None
    } else if occurs_at(h, n, from) {
        Some(from)
    } else {
        first_at(h, n, from + 1)
    }
}

proof fn lemma_first_at_some(h: Seq<char>, n: Seq<char>, from: int, i: int)
    requires
        0 <= from <= i,
        occurs_at(h, n, i),
        forall|k: int| from <= k < i ==> !occurs_at(h, n, k),
    ensures
        first_at(h, n, from) == Some(i),
    decreases i - from,
{
    if from < i {
        lemma_first_at_some(h, n, from + 1, i);
    }
}

proof fn lemma_first_at_none(h: Seq<char>, n: Seq<char>, from: int)
    requires
        0 <= from,
        forall|k: int| from <= k ==> !occurs_at(h, n, k),
    ensures
        first_at(h, n, from) is None,
    decreases h.len() + 1 - from,
{
    if from <= h.len() {
        lemma_first_at_none(h, n, from + 1);
    }
}

/// The first index of `p` in `v`, if it occurs.
fn first_index(v: &Vec<char>, p: &Vec<char>) -> (r: Option<usize>)
    ensures
        match r {
            Some(i) => first_at(v@, p@, 0) == Some(i as int) && occurs_at(v@, p@, i as int),
            None => first_at(v@, p@, 0) is None,
        },
{
    match find_from(v, p, 0) {
        Some(i) => {
            proof {
                lemma_first_at_some(v@, p@, 0, i as int);
            }
            Some(i)
        },
        None => {
            proof {
                lemma_first_at_none(v@, p@, 0);
            }
            None
        },
    }
}

/// `v[from..to]` appended to `r`.
fn push_slice(r: &mut Vec<char>, v: &Vec<char>, from: usize, to: usize)
    requires
        from <= to <= v@.len(),
    ensures
        final(r)@ == old(r)@ + v@.subrange(from as int, to as int),
{
    let mut k = from;
    while k < to
        invariant
            from <= k <= to <= v@.len(),
            r@ == old(r)@ + v@.subrange(from as int, k as int),
        decreases to - k,
    {
        r.push(v[k]);
        assert(v@.subrange(from as int, k + 1) =~= v@.subrange(from as int, k as int).push(
            v@[k as int],
        ));
        k += 1;
    }
}

/// The lines of `ls` that do not contain `p`.
fn keep_lines_without(ls: &Vec<Vec<char>>, p: &Vec<char>) -> (r: Vec<Vec<char>>)
    ensures
        r@.map_values(|w: Vec<char>| w@) == lines_without(ls@.map_values(|w: Vec<char>| w@), p@),
{
    let ghost views = ls@.map_values(|w: Vec<char>| w@);
    let mut r: Vec<Vec<char>> = Vec::new();
    let mut i: usize = 0;
    while i < ls.len()
        invariant
            i <= ls@.len(),
            views == ls@.map_values(|w: Vec<char>| w@),
            r@.map_values(|w: Vec<char>| w@) == lines_without(views.take(i as int), p@),
        decreases ls@.len() - i,
    {
        proof {
            assert(views.take(i + 1).drop_last() =~= views.take(i as int));
            assert(views.take(i + 1).last() == ls@[i as int]@);
        }
        if !contains(&ls[i], p) {
            let w = ls[i].clone();
            proof {
                assert(w@ =~= ls@[i as int]@);
                assert(r@.push(w).map_values(|w: Vec<char>| w@) =~= r@.map_values(
                    |w: Vec<char>| w@,
                ).push(w@));
            }
            r.push(w);
        }
        i += 1;
    }
    assert(views.take(i as int) =~= views);
    r
}

/// `v` without `v[start..after]`.
fn cut_out(v: &Vec<char>, start: usize, after: usize) -> (r: Vec<char>)
    requires
        start <= v@.len(),
        after <= v@.len(),
    ensures
        r@ == v@.take(start as int) + v@.skip(after as int),
{
    let mut r: Vec<char> = Vec::new();
    push_slice(&mut r, v, 0, start);
    push_slice(&mut r, v, after, v.len());
    assert(v@.subrange(0, start as int) =~= v@.take(start as int));
    assert(v@.subrange(after as int, v@.len() as int) =~= v@.skip(after as int));
    r
}

/// The lines of `v` that do not run ozymem, joined with `\n`.
fn lines_without_marker(v: &Vec<char>) -> (r: Vec<char>)
    ensures
        r@ == unmarked_lines(v@),
{
    reveal(unmarked_lines);
    let marker = marker_chars();
    let ls = lines_of(v);
    proof {
        assert(ls@.map_values(|w: Vec<char>| w@) =~= text_lines(v@));
    }
    let kept = keep_lines_without(&ls, &marker);
    join_vecs(&kept, '\n')
}

/// The hook text with ozymem taken out (see `without_block`).
fn without_block_chars(v: &Vec<char>) -> (cleaned: Vec<char>)
    ensures
        cleaned@ == without_block(v@),
{
    let start_marker = chars_of("# --- Ozymem automated knowledge capture ---");
    let end_marker = chars_of("# --- End Ozymem ---");
    assert(start_marker@ == block_start());
    assert(end_marker@ == block_end());
    let s = first_index(v, &start_marker);
    let e = first_index(v, &end_marker);
    match (s, e) {
        (Some(si), Some(ei)) => {
            assert(occurs_at(v@, end_marker@, ei as int));
            assert(ei + end_marker@.len() <= v@.len());
            let n = v.len();
            assert(ei + end_marker.len() <= n);
            cut_out(v, si, ei + end_marker.len())
        },
        _ => lines_without_marker(v),
    }
}

/// Removing the hook from a post-commit file holding `content`: a file that
/// does not run ozymem is left alone; else the ozymem block (or, without
/// both block markers, every line running ozymem) is taken out and the rest
/// trimmed; nothing left but the shebang deletes the file, anything else is
/// written back with one final newline.
pub fn uninstall_hook_content(content: &str) -> (r: HookRemoval)
    ensures
        match r {
            HookRemoval::NotInstalled => removal_text(content@) is None,
            HookRemoval::RemoveFile => removal_text(content@) == Some(None::<Seq<char>>),
            HookRemoval::Write(t) => removal_text(content@) == Some(Some(t@)),
        },
{
    let v = chars_of(content);
    let marker = marker_chars();
    if !contains(&v, &marker) {
        return HookRemoval::NotInstalled;
    }
    let cleaned = without_block_chars(&v);
    let t = trim_chars(&cleaned);
    let shebang = chars_of("#!/bin/sh");
    if t.len() == 0 || chars_eq(&t, &shebang) {
        HookRemoval::RemoveFile
    } else {
        let mut out = string_of(&t);
        push_char(&mut out, '\n');
        HookRemoval::Write(out)
    }
}

/// What the status check reports of a post-commit hook.
#[derive(PartialEq, Eq, Structural)]
pub enum HookState {
    /// There is no post-commit file.
    NotInstalled,
    /// The file runs ozymem.
    Active,
    /// The file exists but does not run ozymem.
    Foreign,
}

/// The state of a post-commit hook whose file holds `content` (`None` when
/// there is no file).
pub fn hook_state(content: Option<&str>) -> (r: HookState)
    ensures
        r == (match opt_text(content) {
            None => HookState::NotInstalled,
            Some(c) => if occurs_in(c, hook_marker()) {
                HookState::Active
            } else {
                HookState::Foreign
            },
        }),
{
    match content {
        None => HookState::NotInstalled,
        Some(c) => {
            let v = chars_of(c);
            let marker = marker_chars();
            if contains(&v, &marker) {
                HookState::Active
            } else {
                HookState::Foreign
            }
        },
    }
}

proof fn lemma_snippet_runs_ozymem()
    ensures
        occurs_at(hook_snippet(), hook_marker(), 93),
{
    reveal_strlit(
        "\n# --- Ozymem automated knowledge capture ---\nif command -v ozymem >/dev/null 2>&1; then\n    ozymem hook run post-commit 2>/dev/null || true\nfi\n# --- End Ozymem ---\n",
    );
    reveal_strlit("ozymem hook run post-commit");
    assert(hook_snippet().subrange(93, 120) =~= hook_marker());
}

proof fn lemma_occurs_after(a: Seq<char>, b: Seq<char>, n: Seq<char>, i: int)
    requires
        occurs_at(b, n, i),
    ensures
        occurs_at(a + b, n, a.len() + i),
{
    assert((a + b).subrange(a.len() + i, a.len() + i + n.len()) =~= b.subrange(i, i + n.len()));
}

/// Installing is idempotent: once the hook has been installed, installing
/// again leaves the file alone.
pub proof fn lemma_install_idempotent(existing: Option<Seq<char>>)
    ensures
        installed_text(existing) matches Some(t) ==> installed_text(Some(t)) is None,
{
    lemma_snippet_runs_ozymem();
    match existing {
        None => {
            lemma_occurs_after("#!/bin/sh\n"@, hook_snippet(), hook_marker(), 93);
        },
        Some(c) => {
            lemma_occurs_after(trim_end(c) + seq!['\n'], hook_snippet(), hook_marker(), 93);
        },
    }
}

/// A file that a commit touched, from a `git diff-tree --name-status` line.
pub struct ChangedFile {
    /// The status letter starts with `D`: the file was deleted.
    pub deleted: bool,
    /// The path relative to the repository root.
    pub rel_path: String,
}

/// What a `git diff-tree --name-status` line says: whether the file was
/// deleted and its path; `None` for a line with fewer than two words.
pub open spec fn changed_entry(line: Seq<char>) -> Option<(bool, Seq<char>)> {
    let ws = words(line);
    if ws.len() < 2 {
        None
    } else {
        Some((ws[0].len() > 0 && ws[0][0] == 'D', ws[1]))
    }
}

/// The entries of the lines that have one, in order.
pub open spec fn changed_entries(ls: Seq<Seq<char>>) -> Seq<(bool, Seq<char>)>
    decreases ls.len(),
{
    if ls.len() == 0 {
        Seq::empty()
    } else {
        match changed_entry(ls.last()) {
            Some(e) => changed_entries(ls.drop_last()).push(e),
            None => changed_entries(ls.drop_last()),
        }
    }
}

/// The content of a changed-file record.
pub open spec fn change_view(f: ChangedFile) -> (bool, Seq<char>) {
    (f.deleted, f.rel_path@)
}

/// The files a commit touched, read from the output of
/// `git diff-tree --no-commit-id --name-status -r HEAD`: each line with at
/// least two words gives its status (deleted when it starts with `D`) and
/// path; other lines are skipped.
pub fn parse_changed_files(changed: &str) -> (r: Vec<ChangedFile>)
    ensures
        r@.map_values(|f: ChangedFile| change_view(f)) == changed_entries(text_lines(changed@)),
{
    let v = chars_of(changed);
    let ls = lines_of(&v);
    let ghost lv = text_lines(v@);
    let mut r: Vec<ChangedFile> = Vec::new();
    let mut i: usize = 0;
    while i < ls.len()
        invariant
            i <= ls@.len(),
            lv == text_lines(v@),
            v@ == changed@,
            ls@.len() == lv.len(),
            forall|k: int| 0 <= k < ls@.len() ==> #[trigger] ls@[k]@ == lv[k],
            r@.map_values(|f: ChangedFile| change_view(f)) == changed_entries(lv.take(i as int)),
        decreases ls@.len() - i,
    {
        let ws = words_of(&ls[i]);
        proof {
            assert(lv.take(i + 1).drop_last() =~= lv.take(i as int));
            assert(lv.take(i + 1).last() == lv[i as int]);
        }
        if ws.len() >= 2 {
            let deleted = ws[0].len() > 0 && ws[0][0] == 'D';
            let f = ChangedFile { deleted, rel_path: string_of(&ws[1]) };
            proof {
                assert(change_view(f) == changed_entry(lv[i as int])->0);
                assert(r@.push(f).map_values(|f: ChangedFile| change_view(f)) =~= r@.map_values(
                    |f: ChangedFile| change_view(f),
                ).push(change_view(f)));
            }
            r.push(f);
        }
        i += 1;
    }
    assert(lv.take(i as int) =~= lv);
    r
}

/// The path of the first file in `files` that was not deleted.
pub open spec fn first_kept(files: Seq<(bool, Seq<char>)>) -> Option<Seq<char>>
    decreases files.len(),
{
    if files.len() == 0 {
        None
    } else if !files[0].0 {
        Some(files[0].1)
    } else {
        first_kept(files.drop_first())
    }
}

/// The file a commit's lesson is recorded against: the first changed file
/// that was not deleted.
pub fn primary_file(files: &Vec<ChangedFile>) -> (r: Option<String>)
    ensures
        match r {
            Some(p) => first_kept(files@.map_values(|f: ChangedFile| change_view(f))) == Some(p@),
            None => first_kept(files@.map_values(|f: ChangedFile| change_view(f))) is None,
        },
{
    let ghost views = files@.map_values(|f: ChangedFile| change_view(f));
    let mut i: usize = 0;
    assert(views.skip(0) =~= views);
    while i < files.len()
        invariant
            i <= files@.len(),
            views == files@.map_values(|f: ChangedFile| change_view(f)),
            first_kept(views) == first_kept(views.skip(i as int)),
        decreases files@.len() - i,
    {
        assert(views.skip(i as int).drop_first() =~= views.skip(i + 1));
        assert(views.skip(i as int)[0] == change_view(files@[i as int]));
        if !files[i].deleted {
            return Some(files[i].rel_path.clone());
        }
        i += 1;
    }
    assert(views.skip(i as int).len() == 0);
    None
}

/// The knowledge note saved for a commit: its title, its body when there is
/// one, and the changed-files listing.
pub open spec fn commit_note(title: Seq<char>, body: Seq<char>, changed: Seq<char>) -> Seq<char> {
    if body.len() == 0 {
        "Commit: "@ + title + "\nFiles:\n"@ + changed
    } else {
        "Commit: "@ + title + seq!['\n'] + body + "\nFiles:\n"@ + changed
    }
}

/// The knowledge note for a commit titled `title` with body `body` that
/// changed the files listed in `changed`.
pub fn commit_note_content(title: &str, body: &str, changed: &str) -> (r: String)
    ensures
        r@ == commit_note(title@, body@, changed@),
{
    let mut r = "Commit: ".to_owned();
    push_str(&mut r, title);
    if !body.is_empty() {
        push_char(&mut r, '\n');
        push_str(&mut r, body);
    }
    push_str(&mut r, "\nFiles:\n");
    push_str(&mut r, changed);
    assert(r@ =~= commit_note(title@, body@, changed@));
    r
}

/// A commit title that reads as a fix: lower-cased, it starts with `fix` or
/// mentions `bug` or `solve`.
pub open spec fn is_fix_title(title: Seq<char>) -> bool {
    let l = lower_of(title);
    has_prefix(l, "fix"@) || occurs_in(l, "bug"@) || occurs_in(l, "solve"@)
}

/// Whether a commit with this title is also recorded as a lesson.
pub fn is_fix_commit(title: &str) -> (r: bool)
    ensures
        r == is_fix_title(title@),
{
    let v = chars_of(title);
    let l = lower_chars(&v);
    let fix = chars_of("fix");
    let bug = chars_of("bug");
    let solve = chars_of("solve");
    starts_with(&l, &fix) || contains(&l, &bug) || contains(&l, &solve)
}

/// What the block's text is made of: where its markers stand, and that
/// neither marker spans a line end.
proof fn lemma_snippet_layout()
    ensures
        hook_snippet().len() == 165,
        hook_snippet()[0] == '\n',
        hook_snippet()[164] == '\n',
        block_start().len() == 44,
        block_end().len() == 20,
        occurs_at(hook_snippet(), block_start(), 1),
        occurs_at(hook_snippet(), block_end(), 144),
        forall|i: int| 0 <= i < block_start().len() ==> block_start()[i] != '\n',
        forall|i: int| 0 <= i < block_end().len() ==> block_end()[i] != '\n',
        forall|j: int| 0 <= j < 144 ==> !occurs_at(hook_snippet(), block_end(), j),
{
    reveal_strlit(
        "\n# --- Ozymem automated knowledge capture ---\nif command -v ozymem >/dev/null 2>&1; then\n    ozymem hook run post-commit 2>/dev/null || true\nfi\n# --- End Ozymem ---\n",
    );
    reveal_strlit("# --- Ozymem automated knowledge capture ---");
    reveal_strlit("# --- End Ozymem ---");
    let sn = hook_snippet();
    let f = block_end();
    assert(sn.subrange(1, 45) =~= block_start());
    assert(sn.subrange(144, 164) =~= f);
    assert forall|j: int| 0 <= j < 144 implies !occurs_at(sn, f, j) by {
        if occurs_at(sn, f, j) {
            assert(sn.subrange(j, j + 20)[0] == f[0]);
            assert(sn[j] == '#');
            assert(j == 1 || j == 144);
            assert(sn.subrange(j, j + 20)[6] == f[6]);
        }
    }
}

/// Removing the hook right after installing it into a hook file that did not
/// mention ozymem gives the file's own text back, trimmed and with one final
/// newline, or deletes the file when nothing but the shebang is left.
pub proof fn lemma_uninstall_undoes_install(c: Seq<char>)
    requires
        !occurs_in(c, hook_marker()),
        !occurs_in(c, block_start()),
        !occurs_in(c, block_end()),
    ensures
        installed_text(Some(c)) == Some(trim_end(c) + seq!['\n'] + hook_snippet()),
        removal_text(trim_end(c) + seq!['\n'] + hook_snippet()) == (if trim(c).len() == 0 || trim(c)
            == "#!/bin/sh"@ {
            Some(None::<Seq<char>>)
        } else {
            Some(Some(trim(c).push('\n')))
        }),
{
    let e = trim_end(c);
    let p = e + seq!['\n'];
    let sn = hook_snippet();
    let t = p + sn;
    let a = p.len() as int;
    let h = block_start();
    let f = block_end();
    lemma_snippet_layout();
    lemma_snippet_runs_ozymem();
    lemma_occurs_after(p, sn, hook_marker(), 93);
    lemma_occurs_after(p, sn, h, 1);
    lemma_occurs_after(p, sn, f, 144);
    lemma_trim_end_split(c);
    assert(e == c.take(e.len() as int));
    assert(t[a - 1] == '\n');
    assert(t[a] == sn[0]);
    assert forall|k: int| 0 <= k < a + 1 implies !occurs_at(t, h, k) by {
        if occurs_at(t, h, k) {
            if k + 44 <= e.len() {
                assert(t.subrange(k, k + 44) =~= c.subrange(k, k + 44));
                assert(occurs_at(c, h, k));
            } else if k <= a - 1 {
                assert(t.subrange(k, k + 44)[a - 1 - k] == t[a - 1]);
                assert(h[a - 1 - k] == '\n');
            } else {
                assert(t.subrange(k, k + 44)[0] == t[a]);
                assert(h[0] == '\n');
            }
        }
    }
    assert forall|k: int| 0 <= k < a + 144 implies !occurs_at(t, f, k) by {
        if occurs_at(t, f, k) {
            if k + 20 <= e.len() {
                assert(t.subrange(k, k + 20) =~= c.subrange(k, k + 20));
                assert(occurs_at(c, f, k));
            } else if k <= a - 1 {
                assert(t.subrange(k, k + 20)[a - 1 - k] == t[a - 1]);
                assert(f[a - 1 - k] == '\n');
            } else if k == a {
                assert(t.subrange(k, k + 20)[0] == t[a]);
                assert(f[0] == '\n');
            } else {
                assert(t.subrange(k, k + 20) =~= sn.subrange(k - a, k - a + 20));
                assert(occurs_at(sn, f, k - a));
            }
        }
    }
    lemma_first_at_some(t, h, 0, a + 1);
    lemma_first_at_some(t, f, 0, a + 144);
    let w = seq!['\n', '\n', '\n'];
    assert(t.take(a + 1) + t.skip(a + 144 + 20) =~= e + w);
    assert(without_block(t) == e + w);
    assert(all_ws(w)) by {
        assert(is_ws('\n'));
    }
    lemma_trim_append_ws(e, w);
    lemma_trim_of_trim_end(c);
}

/// Removing the hook right after installing it where there was no hook file
/// deletes the file again.
pub proof fn lemma_uninstall_after_fresh_install()
    ensures
        installed_text(None) matches Some(t) && removal_text(t) == Some(None::<Seq<char>>),
{
    let c = "#!/bin/sh"@;
    reveal_strlit("#!/bin/sh");
    reveal_strlit("#!/bin/sh\n");
    reveal_strlit("ozymem hook run post-commit");
    reveal_strlit("# --- Ozymem automated knowledge capture ---");
    reveal_strlit("# --- End Ozymem ---");
    assert(!is_ws(c.last()));
    assert(trim_end(c) == c);
    assert(!is_ws(c[0]));
    assert(trim_start(c) == c);
    assert(trim(c) == c);
    assert("#!/bin/sh\n"@ =~= c + seq!['\n']);
    lemma_uninstall_undoes_install(c);
}

} // verus!
