//! Knowledge-base helpers: scopes, topic keys, rule terms, content digests and
//! generated identifiers.

use vstd::prelude::*;
use vstd::string::StringSliceAdditionalSpecFns;
use vstd::utf8::encode_utf8;
use crate::digest::{hex_encode, hex_lower, hex_number, hex_of_u128, sha256, sha256_of};
use crate::paths::{is_word, trim, trim_chars};
use crate::query::{one_line, words_of, words};
use crate::text::{
    ascii_lower_chars, ascii_lower_seq, byte_count, byte_len, has_prefix, is_digit, lines_of,
    starts_with, string_of_range, text_lines,
    alnum_of, char_is_alphanumeric, chars_of, find_from, is_ascii_alnum, join_char, join_vecs,
    lower_chars, lower_of, nonempty_pieces, occurs_at, occurs_in, push_all, push_char, push_str,
    split_nonempty, split_on, str_eq, string_of, to_lower, is_ascii_seq, no_ascii_upper, is_ws,
};
use crate::paths::{trim_end, trim_start};

verus! {

broadcast use vstd::string::group_string_axioms;

/// A working session of an agent on a project.
#[derive(Debug, Clone)]
pub struct MemorySession {
    pub id: String,
    pub project: String,
    pub directory: String,
    pub started_at: String,
    pub ended_at: Option<String>,
    pub summary: Option<String>,
    pub status: String,
}

/// A stored observation: its kind, title and content, where it belongs
/// (project, scope, topic key) and how often it was revised or seen again.
#[derive(Debug, Clone)]
pub struct ObservationEntry {
    pub id: i64,
    pub session_id: String,
    pub observation_type: String,
    pub title: String,
    pub content: String,
    pub project: String,
    pub scope: String,
    pub topic_key: Option<String>,
    pub revision_count: i64,
    pub duplicate_count: i64,
    pub created_at: String,
    pub updated_at: String,
}

/// A prompt the user gave in a session.
#[derive(Debug, Clone)]
pub struct UserPromptEntry {
    pub id: i64,
    pub session_id: String,
    pub content: String,
    pub project: String,
    pub created_at: String,
}

/// The scope of a memory entry: `personal` when asked for, else `project`.
pub fn normalize_scope(scope: Option<&str>) -> (r: &str)
    ensures
        r@ == (if scope matches Some(s) && s@ == "personal"@ {
            "personal"@
        } else {
            "project"@
        }),
{
    match scope {
        Some(s) => if str_eq(s, "personal") {
            "personal"
        } else {
            "project"
        },
        None => "project",
    }
}

/// A topic-key character: ASCII letters and digits, `/` and `-` are kept,
/// anything else becomes `-`.
pub open spec fn topic_char(c: char) -> char {
    if is_ascii_alnum(c) || c == '/' || c == '-' {
        c
    } else {
        '-'
    }
}

/// Text lower-cased as `str::to_lowercase` does: the ASCII mapping for ASCII
/// text (what `to_lower` states of it), Unicode lower-casing otherwise.
pub open spec fn lowered(t: Seq<char>) -> Seq<char> {
    if is_ascii_seq(t) {
        ascii_lower_seq(t)
    } else {
        lower_of(t)
    }
}

/// The canonical topic key: trimmed, lower-cased, non-key characters turned
/// into `-`, and runs of `-` collapsed with none at either end.
pub open spec fn topic_key(topic: Seq<char>) -> Seq<char> {
    let mapped = lowered(trim(topic)).map_values(|c: char| topic_char(c));
    join_char(nonempty_pieces(split_on(mapped, '-')), '-')
}

/// A character a canonical key may hold: a lower-case ASCII letter, a digit,
/// `/` or `-`.
pub open spec fn key_char(c: char) -> bool {
    ('a' <= c && c <= 'z') || ('0' <= c && c <= '9') || c == '/' || c == '-'
}

/// A canonical topic key: only key characters, no `-` at either end and no
/// two `-` in a row.
pub open spec fn is_key(k: Seq<char>) -> bool {
    &&& forall|i: int| 0 <= i < k.len() ==> key_char(#[trigger] k[i])
    &&& k.len() > 0 ==> k[0] != '-' && k.last() != '-'
    &&& forall|i: int| 0 <= i < k.len() - 1 ==> !(#[trigger] k[i] == '-' && k[i + 1] == '-')
}

/// No `-` at the start and no two `-` in a row.
pub open spec fn dash_clean(s: Seq<char>) -> bool {
    &&& s.len() > 0 ==> s[0] != '-'
    &&& forall|i: int| 0 <= i < s.len() - 1 ==> !(#[trigger] s[i] == '-' && s[i + 1] == '-')
}

/// Joining one more piece after others puts `-` before it.
proof fn lemma_join_char_push(x: Seq<Seq<char>>, y: Seq<char>)
    ensures
        join_char(x.push(y), '-') == if x.len() == 0 {
            y
        } else {
            join_char(x, '-').push('-') + y
        },
{
    assert(x.push(y).drop_last() =~= x);
    assert(x.push(y).last() == y);
    if x.len() == 0 {
        assert(x.push(y)[0] == y);
    }
}

/// Splitting at `-`, dropping empty pieces and joining with `-` gives back a
/// text with no `-` at its start and none doubled (without a final `-`).
proof fn lemma_rejoin(s: Seq<char>)
    requires
        dash_clean(s),
    ensures
        join_char(nonempty_pieces(split_on(s, '-')), '-') == if s.len() > 0 && s.last() == '-' {
            s.drop_last()
        } else {
            s
        },
    decreases s.len(),
{
    if s.len() > 0 {
        let t = s.drop_last();
        let c = s.last();
        assert(dash_clean(t)) by {
            assert forall|i: int| 0 <= i < t.len() - 1 implies !(#[trigger] t[i] == '-' && t[i + 1]
                == '-') by {
                assert(t[i] == s[i] && t[i + 1] == s[i + 1]);
            }
            if t.len() > 0 {
                assert(t[0] == s[0]);
            }
        }
        lemma_rejoin(t);
        crate::text::lemma_split_on_len(t, '-');
        let r = split_on(t, '-');
        let x = nonempty_pieces(r.drop_last());
        if c == '-' {
            assert(t.len() > 0) by {
                assert(s[0] != '-');
            }
            assert(t.last() != '-') by {
                assert(s[s.len() - 2] == t.last());
                assert(s[s.len() - 1] == c);
            }
            assert(split_on(s, '-') == r.push(Seq::<char>::empty()));
            assert(r.push(Seq::<char>::empty()).drop_last() =~= r);
            assert(nonempty_pieces(r.push(Seq::<char>::empty())) == nonempty_pieces(r));
        } else {
            let y = r.last().push(c);
            assert(split_on(s, '-') == r.update(r.len() - 1, y));
            let r2 = r.update(r.len() - 1, y);
            assert(r2.drop_last() =~= r.drop_last());
            assert(r2.last() == y);
            assert(nonempty_pieces(r2) == x.push(y));
            if t.len() > 0 && t.last() == '-' {
                assert(r.last().len() == 0);
                assert(nonempty_pieces(r) == x);
                if x.len() == 0 {
                    assert(t.drop_last().len() == 0);
                    assert(t =~= seq!['-']);
                    assert(s[0] == '-');
                }
                assert(y =~= seq![c]);
                lemma_join_char_push(x, y);
                assert(join_char(x, '-') == t.drop_last());
                assert(s =~= t.drop_last().push('-') + y);
            } else if t.len() == 0 {
                assert(r =~= seq![Seq::<char>::empty()]);
                assert(x.len() == 0);
                assert(y =~= seq![c]);
                lemma_join_char_push(x, y);
                assert(s =~= seq![c]);
            } else {
                assert(r.last().len() > 0) by {
                    crate::text::lemma_split_on_len(t.drop_last(), '-');
                }
                assert(nonempty_pieces(r) == x.push(r.last()));
                lemma_join_char_push(x, r.last());
                lemma_join_char_push(x, y);
                assert(join_char(x.push(r.last()), '-') == t);
                if x.len() == 0 {
                    assert(y =~= t.push(c));
                } else {
                    assert(join_char(x, '-').push('-') + y =~= (join_char(x, '-').push('-') + r.last()).push(c));
                }
                assert(s =~= t.push(c));
            }
        }
    } else {
        let e = seq![Seq::<char>::empty()];
        assert(split_on(s, '-') =~= e);
        assert(e.drop_last() =~= Seq::<Seq<char>>::empty());
        assert(e.last().len() == 0);
        assert(nonempty_pieces(Seq::<Seq<char>>::empty()) == Seq::<Seq<char>>::empty());
        assert(nonempty_pieces(e) == nonempty_pieces(e.drop_last()));
    }
}

/// A piece of a text split at `-` holds no `-`, and only characters of the
/// text.
proof fn lemma_split_pieces(s: Seq<char>)
    ensures
        forall|i: int, j: int|
            0 <= i < split_on(s, '-').len() && 0 <= j < split_on(s, '-')[i].len() ==> #[trigger] split_on(
                s,
                '-',
            )[i][j] != '-' && s.contains(split_on(s, '-')[i][j]),
    decreases s.len(),
{
    if s.len() > 0 {
        let t = s.drop_last();
        lemma_split_pieces(t);
        crate::text::lemma_split_on_len(t, '-');
        let r = split_on(t, '-');
        let q = split_on(s, '-');
        assert forall|i: int, j: int| 0 <= i < q.len() && 0 <= j < q[i].len() implies #[trigger] q[i][j]
            != '-' && s.contains(q[i][j]) by {
            if i < r.len() && (s.last() == '-' || i < r.len() - 1 || j < r[i].len()) {
                if s.last() != '-' && i == r.len() - 1 {
                    assert(q[i] == r.last().push(s.last()));
                    assert(q[i][j] == r[i][j]);
                } else {
                    assert(q[i] == r[i]);
                }
                let m = choose|m: int| 0 <= m < t.len() && t[m] == r[i][j];
                assert(s[m] == t[m]);
            } else {
                assert(q[i][j] == s.last());
                assert(s[s.len() - 1] == s.last());
            }
        }
    }
}

/// The pieces kept by `nonempty_pieces` are pieces, and not empty.
proof fn lemma_nonempty_pieces(ps: Seq<Seq<char>>)
    ensures
        forall|i: int|
            0 <= i < nonempty_pieces(ps).len() ==> #[trigger] nonempty_pieces(ps)[i].len() > 0
                && exists|j: int| 0 <= j < ps.len() && ps[j] == nonempty_pieces(ps)[i],
    decreases ps.len(),
{
    if ps.len() > 0 {
        lemma_nonempty_pieces(ps.drop_last());
        let n = nonempty_pieces(ps);
        let m = nonempty_pieces(ps.drop_last());
        assert forall|i: int| 0 <= i < n.len() implies #[trigger] n[i].len() > 0 && exists|j: int|
            0 <= j < ps.len() && ps[j] == n[i] by {
            if i < m.len() {
                assert(n[i] == m[i]);
                let j = choose|j: int| 0 <= j < ps.drop_last().len() && ps.drop_last()[j] == m[i];
                assert(ps[j] == n[i]);
            } else {
                assert(n[i] == ps[ps.len() - 1]);
            }
        }
    }
}

/// Non-empty pieces without `-` and of key characters, joined with `-`,
/// make a canonical key.
proof fn lemma_join_is_key(ws: Seq<Seq<char>>)
    requires
        forall|i: int| 0 <= i < ws.len() ==> #[trigger] ws[i].len() > 0,
        forall|i: int, j: int|
            0 <= i < ws.len() && 0 <= j < ws[i].len() ==> #[trigger] ws[i][j] != '-' && key_char(
                ws[i][j],
            ),
    ensures
        is_key(join_char(ws, '-')),
    decreases ws.len(),
{
    if ws.len() > 1 {
        let init = ws.drop_last();
        assert forall|i: int, j: int| 0 <= i < init.len() && 0 <= j < init[i].len() implies #[trigger] init[i][j]
            != '-' && key_char(init[i][j]) by {
            assert(init[i] == ws[i]);
        }
        lemma_join_is_key(init);
        let a = join_char(init, '-');
        let w = ws.last();
        let k = a.push('-') + w;
        assert(ws[ws.len() - 1] == w);
        assert(a.len() > 0) by {
            lemma_join_nonempty(init);
        }
        assert forall|i: int| 0 <= i < k.len() implies key_char(#[trigger] k[i]) by {
            if i < a.len() {
                assert(k[i] == a[i]);
            } else if i > a.len() {
                assert(k[i] == w[i - a.len() - 1]);
            }
        }
        assert forall|i: int| 0 <= i < k.len() - 1 implies !(#[trigger] k[i] == '-' && k[i + 1]
            == '-') by {
            if i < a.len() - 1 {
                assert(k[i] == a[i] && k[i + 1] == a[i + 1]);
            } else if i == a.len() - 1 {
                assert(k[i] == a.last());
            } else if i == a.len() {
                assert(k[i + 1] == w[0]);
            } else {
                assert(k[i] == w[i - a.len() - 1]);
            }
        }
        assert(k[0] == a[0]);
        assert(k.last() == w.last());
        assert(w[w.len() - 1] == w.last());
    } else if ws.len() == 1 {
        assert(ws[0][0] != '-');
        assert(ws[0][ws[0].len() - 1] != '-');
    }
}

/// Joining at least one non-empty piece gives a non-empty text.
proof fn lemma_join_nonempty(ws: Seq<Seq<char>>)
    requires
        ws.len() > 0,
        forall|i: int| 0 <= i < ws.len() ==> #[trigger] ws[i].len() > 0,
    ensures
        join_char(ws, '-').len() > 0,
    decreases ws.len(),
{
    if ws.len() > 1 {
        assert(ws[ws.len() - 1] == ws.last());
    }
}

/// A canonical key is its own topic key: normalizing a normalized key gives
/// it back.
pub proof fn lemma_key_is_fixed(k: Seq<char>)
    requires
        is_key(k),
    ensures
        topic_key(k) == k,
{
    assert(trim_start(k) == k) by {
        if k.len() > 0 {
            assert(key_char(k[0]));
        }
    }
    assert(trim_end(k) == k) by {
        if k.len() > 0 {
            assert(key_char(k[k.len() - 1]));
        }
    }
    assert(is_ascii_seq(k)) by {
        assert forall|i: int| 0 <= i < k.len() implies (k[i] as u32) < 128 by {
            assert(key_char(k[i]));
        }
    }
    assert(ascii_lower_seq(k) =~= k) by {
        assert forall|i: int| 0 <= i < k.len() implies ascii_lower_seq(k)[i] == k[i] by {
            assert(key_char(k[i]));
        }
    }
    let mapped = k.map_values(|c: char| topic_char(c));
    assert(mapped =~= k) by {
        assert forall|i: int| 0 <= i < k.len() implies mapped[i] == k[i] by {
            assert(key_char(k[i]));
        }
    }
    lemma_rejoin(k);
}

/// The topic key of any text is a canonical key, given text lower-cased
/// without ASCII capitals (which `to_lower` states).
proof fn lemma_topic_key_is_key(topic: Seq<char>)
    requires
        no_ascii_upper(lowered(trim(topic))),
    ensures
        is_key(topic_key(topic)),
{
    let l = lowered(trim(topic));
    let mapped = l.map_values(|c: char| topic_char(c));
    let ps = split_on(mapped, '-');
    let ws = nonempty_pieces(ps);
    lemma_split_pieces(mapped);
    lemma_nonempty_pieces(ps);
    assert forall|i: int, j: int| 0 <= i < ws.len() && 0 <= j < ws[i].len() implies #[trigger] ws[i][j]
        != '-' && key_char(ws[i][j]) by {
        let p = choose|p: int| 0 <= p < ps.len() && ps[p] == ws[i];
        assert(ps[p][j] != '-' && mapped.contains(ps[p][j]));
        let m = choose|m: int| 0 <= m < mapped.len() && mapped[m] == ps[p][j];
        assert(!('A' <= l[m] && l[m] <= 'Z'));
    }
    lemma_join_is_key(ws);
}

pub fn normalize_topic_key(topic: &str) -> (r: String)
    ensures
        r@ == topic_key(topic@),
        is_key(r@),
        topic_key(r@) == r@,
{
    let v = chars_of(topic);
    let t = trim_chars(&v);
    let l = lower_chars(&t);
    let mut m: Vec<char> = Vec::new();
    let mut i: usize = 0;
    while i < l.len()
        invariant
            i <= l@.len(),
            m@ == l@.take(i as int).map_values(|c: char| topic_char(c)),
        decreases l@.len() - i,
    {
        let c = l[i];
        let keep = ('a' <= c && c <= 'z') || ('A' <= c && c <= 'Z') || ('0' <= c && c <= '9') || c
            == '/' || c == '-';
        m.push(if keep { c } else { '-' });
        assert(l@.take(i + 1).map_values(|c: char| topic_char(c)) =~= l@.take(i as int).map_values(
            |c: char| topic_char(c),
        ).push(topic_char(c)));
        i += 1;
    }
    assert(l@.take(l@.len() as int) =~= l@);
    let parts = split_nonempty(&m, '-');
    proof {
        assert(parts@.map_values(|w: Vec<char>| w@) =~= nonempty_pieces(split_on(m@, '-')));
    }
    let j = join_vecs(&parts, '-');
    proof {
        assert(l@ == lowered(t@));
        lemma_topic_key_is_key(topic@);
        lemma_key_is_fixed(j@);
    }
    string_of(&j)
}

/// The digest of a text's content: its words joined by single spaces,
/// lower-cased, hashed with SHA-256 and written as lower-case hex.
pub open spec fn content_digest(content: Seq<char>) -> Seq<char> {
    hex_lower(sha256_of(encode_utf8(lower_of(one_line(content)))))
}

pub fn normalized_hash(content: &str) -> (r: String)
    ensures
        r@ == content_digest(content@),
{
    let v = chars_of(content);
    let ws = words_of(&v);
    let mut line = String::new();
    let mut i: usize = 0;
    let ghost views = ws@.map_values(|w: Vec<char>| w@);
    proof {
        assert(views =~= words(content@));
    }
    let joined = join_vecs(&ws, ' ');
    proof {
        lemma_join_char_space(views);
    }
    let s = string_of(&joined);
    let lowered = to_lower(s.as_str());
    let bytes = lowered.as_str().as_bytes();
    let d = sha256(bytes);
    hex_encode(d.as_slice())
}

proof fn lemma_join_char_space(ws: Seq<Seq<char>>)
    ensures
        join_char(ws, ' ') == crate::query::join_space(ws),
    decreases ws.len(),
{
    if ws.len() > 1 {
        lemma_join_char_space(ws.drop_last());
    }
}

/// A generated identifier: the prefix, then `_`, the clock reading in lower-case
/// hex, `_`, and the counter value in lower-case hex.
pub open spec fn generated_id(prefix: Seq<char>, nanos: nat, count: nat) -> Seq<char> {
    prefix + seq!['_'] + hex_number(nanos) + seq!['_'] + hex_number(count)
}

/// Formats an identifier from a prefix, the nanoseconds since the Unix epoch
/// and a process-wide counter value.
pub fn generate_id(prefix: &str, nanos: u128, count: u64) -> (r: String)
    ensures
        r@ == generated_id(prefix@, nanos as nat, count as nat),
{
    let mut r = String::new();
    push_str(&mut r, prefix);
    push_char(&mut r, '_');
    let a = hex_of_u128(nanos);
    push_all(&mut r, &a);
    push_char(&mut r, '_');
    let b = hex_of_u128(count as u128);
    push_all(&mut r, &b);
    r
}


/// The phrases that introduce a prohibition, in the order they are tried.
pub open spec fn trigger_phrase(i: int) -> Seq<char> {
    if i == 0 {
        "never use "@
    } else if i == 1 {
        "never "@
    } else if i == 2 {
        "do not use "@
    } else if i == 3 {
        "do not "@
    } else if i == 4 {
        "prohibited "@
    } else if i == 5 {
        "evitar "@
    } else {
        "forbidden "@
    }
}

fn trigger_at(i: usize) -> (r: &'static str)
    requires
        i < 7,
    ensures
        r@ == trigger_phrase(i as int),
{
    if i == 0 {
        "never use "
    } else if i == 1 {
        "never "
    } else if i == 2 {
        "do not use "
    } else if i == 3 {
        "do not "
    } else if i == 4 {
        "prohibited "
    } else if i == 5 {
        "evitar "
    } else {
        "forbidden "
    }
}

/// The first index at which `n` occurs in `h` (meaningful when it occurs).
pub open spec fn first_occurrence(h: Seq<char>, n: Seq<char>) -> int {
    choose|i: int| occurs_at(h, n, i) && forall|k: int| 0 <= k < i ==> !occurs_at(h, n, k)
}

/// The text before the first occurrence of `n`, or all of it.
pub open spec fn before_first(h: Seq<char>, n: Seq<char>) -> Seq<char> {
    if occurs_in(h, n) {
        h.take(first_occurrence(h, n))
    } else {
        h
    }
}

pub open spec fn is_clause_end(c: char) -> bool {
    c == ',' || c == '.' || c == ';'
}

/// The text before the first `,`, `.` or `;`.
pub open spec fn first_clause(s: Seq<char>) -> Seq<char>
    decreases s.len(),
{
    if s.len() == 0 {
        s
    } else if is_clause_end(s[0]) {
        Seq::empty()
    } else {
        seq![s[0]] + first_clause(s.drop_first())
    }
}

/// A character that separates the words of a clause: neither alphanumeric
/// nor `_`.
pub open spec fn is_term_sep(c: char) -> bool {
    !alnum_of(c) && c != '_'
}

/// The clause split at every separator character, empty pieces included.
pub open spec fn term_pieces(s: Seq<char>) -> Seq<Seq<char>>
    decreases s.len(),
{
    if s.len() == 0 {
        seq![Seq::<char>::empty()]
    } else {
        let r = term_pieces(s.drop_last());
        if is_term_sep(s.last()) {
            r.push(Seq::<char>::empty())
        } else {
            r.update(r.len() - 1, r.last().push(s.last()))
        }
    }
}

/// Words that never count as prohibited terms.
pub open spec fn is_stop_word(w: Seq<char>) -> bool {
    ||| w == "the"@
    ||| w == "a"@
    ||| w == "an"@
    ||| w == "for"@
    ||| w == "to"@
    ||| w == "in"@
    ||| w == "on"@
    ||| w == "with"@
    ||| w == "and"@
    ||| w == "or"@
    ||| w == "use"@
    ||| w == "using"@
    ||| w == "rule"@
    ||| w == "standard"@
    ||| w == "point"@
}

/// A trimmed piece counts when it is at least two bytes long and not a stop word.
pub open spec fn is_term(w: Seq<char>) -> bool {
    encode_utf8(w).len() >= 2 && !is_stop_word(w)
}

/// The terms among the pieces, trimmed, in order.
pub open spec fn terms_of_pieces(ps: Seq<Seq<char>>) -> Seq<Seq<char>>
    decreases ps.len(),
{
    if ps.len() == 0 {
        Seq::empty()
    } else if is_term(trim(ps.last())) {
        terms_of_pieces(ps.drop_last()).push(trim(ps.last()))
    } else {
        terms_of_pieces(ps.drop_last())
    }
}

/// The terms a trigger phrase introduces in the lower-cased rule: the first
/// clause after its first occurrence, cut before `always` and `instead`.
pub open spec fn terms_for(lower: Seq<char>, t: Seq<char>) -> Seq<Seq<char>> {
    if occurs_in(lower, t) {
        let rest = lower.skip(first_occurrence(lower, t) + t.len());
        let clause = before_first(before_first(first_clause(rest), "always"@), "instead"@);
        terms_of_pieces(term_pieces(clause))
    } else {
        Seq::empty()
    }
}

/// The terms of the first `k` trigger phrases, in order.
pub open spec fn terms_upto(lower: Seq<char>, k: int) -> Seq<Seq<char>>
    decreases k,
{
    if k <= 0 {
        Seq::empty()
    } else {
        terms_upto(lower, k - 1) + terms_for(lower, trigger_phrase(k - 1))
    }
}

/// The prohibited terms of a rule text.
pub open spec fn prohibited_terms(rule: Seq<char>) -> Seq<Seq<char>> {
    terms_upto(lower_of(rule), 7)
}

/// A term of a rule: it occurs in the lower-cased rule, is at least two
/// bytes long, is no stop word, and holds only alphanumeric characters and
/// `_`.
pub open spec fn term_shape(lower: Seq<char>, t: Seq<char>) -> bool {
    &&& occurs_in(lower, t)
    &&& encode_utf8(t).len() >= 2
    &&& !is_stop_word(t)
    &&& forall|j: int| 0 <= j < t.len() ==> !is_term_sep(#[trigger] t[j])
}

/// Where a text occurs in a part of another, it occurs in the other.
proof fn lemma_occurs_chain(h: Seq<char>, m: Seq<char>, t: Seq<char>, a: int, b: int)
    requires
        occurs_at(h, m, a),
        occurs_at(m, t, b),
    ensures
        occurs_at(h, t, a + b),
{
    assert(h.subrange(a + b, a + b + t.len()) =~= m.subrange(b, b + t.len()));
}

/// When a text occurs, its first occurrence is one.
proof fn lemma_first_occurrence(h: Seq<char>, n: Seq<char>)
    requires
        occurs_in(h, n),
    ensures
        occurs_at(h, n, first_occurrence(h, n)),
{
    let i = choose|i: int| occurs_at(h, n, i);
    lemma_min_occurrence(h, n, i);
}

proof fn lemma_min_occurrence(h: Seq<char>, n: Seq<char>, i: int)
    requires
        occurs_at(h, n, i),
    ensures
        exists|j: int| occurs_at(h, n, j) && forall|k: int| 0 <= k < j ==> !occurs_at(h, n, k),
    decreases i,
{
    if exists|k: int| 0 <= k < i && occurs_at(h, n, k) {
        let k = choose|k: int| 0 <= k < i && occurs_at(h, n, k);
        lemma_min_occurrence(h, n, k);
    }
}

/// A prefix of a text occurs at its start.
proof fn lemma_prefix_occurs(h: Seq<char>, k: int)
    requires
        0 <= k <= h.len(),
    ensures
        occurs_at(h, h.take(k), 0),
{
    assert(h.subrange(0, k) =~= h.take(k));
}

/// The first clause is a prefix.
proof fn lemma_first_clause_prefix(s: Seq<char>)
    ensures
        first_clause(s).len() <= s.len(),
        s.take(first_clause(s).len() as int) == first_clause(s),
    decreases s.len(),
{
    if s.len() > 0 && !is_clause_end(s[0]) {
        lemma_first_clause_prefix(s.drop_first());
        let f = first_clause(s.drop_first());
        assert(s.take(f.len() + 1 as int) =~= seq![s[0]] + s.drop_first().take(f.len() as int));
    } else if s.len() > 0 {
        assert(s.take(0) =~= Seq::<char>::empty());
    }
}

/// The text before the first occurrence of another is a prefix.
#[verifier::rlimit(40)]
proof fn lemma_before_first_prefix(h: Seq<char>, n: Seq<char>)
    ensures
        before_first(h, n).len() <= h.len(),
        h.take(before_first(h, n).len() as int) == before_first(h, n),
{
    if occurs_in(h, n) {
        lemma_first_occurrence(h, n);
        let i = first_occurrence(h, n);
        assert(0 <= i <= h.len());
        assert(before_first(h, n) == h.take(i));
    } else {
        assert(h.take(h.len() as int) =~= h);
    }
}

/// Every piece of a clause occurs in it and holds no separator.
proof fn lemma_term_pieces(s: Seq<char>)
    ensures
        term_pieces(s).len() >= 1,
        forall|i: int|
            0 <= i < term_pieces(s).len() ==> occurs_in(s, #[trigger] term_pieces(s)[i]),
        forall|i: int, j: int|
            0 <= i < term_pieces(s).len() && 0 <= j < term_pieces(s)[i].len() ==> !is_term_sep(
                #[trigger] term_pieces(s)[i][j],
            ),
        occurs_at(s, term_pieces(s).last(), s.len() - term_pieces(s).last().len()),
    decreases s.len(),
{
    if s.len() == 0 {
        assert(occurs_at(s, Seq::<char>::empty(), 0)) by {
            assert(s.subrange(0, 0) =~= Seq::<char>::empty());
        }
        assert(term_pieces(s)[0] =~= Seq::<char>::empty());
    } else {
        let t = s.drop_last();
        lemma_term_pieces(t);
        let r = term_pieces(t);
        let q = term_pieces(s);
        assert forall|i: int| 0 <= i < r.len() && occurs_in(t, r[i]) implies occurs_in(s, r[i]) by {
            let a = choose|a: int| occurs_at(t, r[i], a);
            assert(s.subrange(a, a + r[i].len()) =~= t.subrange(a, a + r[i].len()));
            assert(occurs_at(s, r[i], a));
        }
        if is_term_sep(s.last()) {
            assert(q == r.push(Seq::<char>::empty()));
            assert(s.subrange(s.len() as int, s.len() as int) =~= Seq::<char>::empty());
            assert(occurs_at(s, Seq::<char>::empty(), s.len() as int));
            assert forall|i: int| 0 <= i < q.len() implies occurs_in(s, #[trigger] q[i]) by {
                if i < r.len() {
                    assert(q[i] == r[i]);
                } else {
                    assert(occurs_at(s, q[i], s.len() as int));
                }
            }
            assert forall|i: int, j: int| 0 <= i < q.len() && 0 <= j < q[i].len() implies !is_term_sep(
                #[trigger] q[i][j],
            ) by {
                assert(q[i] == r[i]);
            }
        } else {
            let l = r.last();
            let y = l.push(s.last());
            assert(q == r.update(r.len() - 1, y));
            let a = t.len() - l.len();
            assert(s.subrange(a, s.len() as int) =~= y) by {
                assert(t.subrange(a, t.len() as int) == l);
            }
            assert(occurs_at(s, y, s.len() - y.len()));
            assert forall|i: int| 0 <= i < q.len() implies occurs_in(s, #[trigger] q[i]) by {
                if i < r.len() - 1 {
                    assert(q[i] == r[i]);
                } else {
                    assert(occurs_at(s, q[i], s.len() - y.len()));
                }
            }
            assert forall|i: int, j: int| 0 <= i < q.len() && 0 <= j < q[i].len() implies !is_term_sep(
                #[trigger] q[i][j],
            ) by {
                if i < r.len() - 1 {
                    assert(q[i] == r[i]);
                } else if j < l.len() {
                    assert(q[i][j] == r[r.len() - 1][j]);
                } else {
                    assert(q[i][j] == s.last());
                }
            }
        }
    }
}

/// Trimming keeps a part of the text.
proof fn lemma_trim_part(p: Seq<char>)
    ensures
        occurs_in(p, trim(p)),
{
    lemma_trim_start_part(p);
    let a = trim_start(p);
    lemma_trim_end_part(a);
    let k = p.len() - a.len();
    assert(occurs_at(p, a, k));
    assert(occurs_at(a, trim_end(a), 0)) by {
        assert(a.subrange(0, trim_end(a).len() as int) == trim_end(a));
    }
    lemma_occurs_chain(p, a, trim(p), k, 0);
}

proof fn lemma_trim_start_part(p: Seq<char>)
    ensures
        trim_start(p).len() <= p.len(),
        occurs_at(p, trim_start(p), p.len() - trim_start(p).len()),
    decreases p.len(),
{
    if p.len() > 0 && is_ws(p[0]) {
        lemma_trim_start_part(p.drop_first());
        let r = trim_start(p.drop_first());
        assert(p.subrange(p.len() - r.len(), p.len() as int) =~= p.drop_first().subrange(
            p.drop_first().len() - r.len(),
            p.drop_first().len() as int,
        ));
    } else {
        assert(p.subrange(0, p.len() as int) =~= p);
    }
}

proof fn lemma_trim_end_part(p: Seq<char>)
    ensures
        trim_end(p).len() <= p.len(),
        p.subrange(0, trim_end(p).len() as int) == trim_end(p),
    decreases p.len(),
{
    if p.len() > 0 && is_ws(p.last()) {
        lemma_trim_end_part(p.drop_last());
        let r = trim_end(p.drop_last());
        assert(p.subrange(0, r.len() as int) =~= p.drop_last().subrange(0, r.len() as int));
    } else {
        assert(p.subrange(0, p.len() as int) =~= p);
    }
}

/// Which piece the `i`-th term among pieces was trimmed from.
spec fn term_source(ps: Seq<Seq<char>>, i: int) -> int
    decreases ps.len(),
{
    if ps.len() == 0 {
        0
    } else if i < terms_of_pieces(ps.drop_last()).len() {
        term_source(ps.drop_last(), i)
    } else {
        ps.len() - 1
    }
}

/// The terms among pieces are trimmed pieces that count as terms.
proof fn lemma_terms_of_pieces(ps: Seq<Seq<char>>)
    ensures
        forall|i: int| 0 <= i < terms_of_pieces(ps).len() ==> 0 <= #[trigger] term_source(ps, i) < ps.len(),
        forall|i: int|
            0 <= i < terms_of_pieces(ps).len() ==> #[trigger] terms_of_pieces(ps)[i] == trim(
                ps[term_source(ps, i)],
            ) && is_term(terms_of_pieces(ps)[i]),
    decreases ps.len(),
{
    if ps.len() > 0 {
        let pl = ps.drop_last();
        lemma_terms_of_pieces(pl);
        let n = terms_of_pieces(ps);
        let m = terms_of_pieces(pl);
        assert(ps.last() == ps[ps.len() - 1]);
        assert forall|i: int| 0 <= i < n.len() implies 0 <= #[trigger] term_source(ps, i) < ps.len()
            && n[i] == trim(ps[term_source(ps, i)]) && is_term(n[i]) by {
            if i < m.len() {
                if is_term(trim(ps.last())) {
                    assert(n == m.push(trim(ps.last())));
                }
                assert(n[i] == m[i]);
                assert(ps[term_source(pl, i)] == pl[term_source(pl, i)]);
            } else {
                assert(is_term(trim(ps.last())));
                assert(n == m.push(trim(ps.last())));
            }
        }
        assert(n == terms_of_pieces(ps));
    } else {
        assert(terms_of_pieces(ps).len() == 0);
    }
}

/// The terms one trigger phrase introduces have the shape of terms.
#[verifier::rlimit(60)]
proof fn lemma_terms_for(lower: Seq<char>, t: Seq<char>)
    ensures
        forall|i: int| 0 <= i < terms_for(lower, t).len() ==> term_shape(lower, #[trigger] terms_for(lower, t)[i]),
        !occurs_in(lower, t) ==> terms_for(lower, t).len() == 0,
{
    if occurs_in(lower, t) {
        lemma_first_occurrence(lower, t);
        let a = first_occurrence(lower, t) + t.len();
        let rest = lower.skip(a);
        assert(occurs_at(lower, rest, a)) by {
            assert(lower.subrange(a, a + rest.len()) =~= rest);
        }
        let fc = first_clause(rest);
        lemma_first_clause_prefix(rest);
        lemma_prefix_occurs(rest, fc.len() as int);
        let b1 = before_first(fc, "always"@);
        lemma_before_first_prefix(fc, "always"@);
        lemma_prefix_occurs(fc, b1.len() as int);
        let clause = before_first(b1, "instead"@);
        lemma_before_first_prefix(b1, "instead"@);
        lemma_prefix_occurs(b1, clause.len() as int);
        lemma_occurs_chain(lower, rest, fc, a, 0);
        lemma_occurs_chain(lower, fc, b1, a, 0);
        lemma_occurs_chain(lower, b1, clause, a, 0);
        let ps = term_pieces(clause);
        lemma_term_pieces(clause);
        lemma_terms_of_pieces(ps);
        let ts = terms_of_pieces(ps);
        assert forall|i: int| 0 <= i < ts.len() implies term_shape(lower, #[trigger] ts[i]) by {
            let j = term_source(ps, i);
            let p = ps[j];
            assert(occurs_in(clause, p));
            let c = choose|c: int| occurs_at(clause, p, c);
            lemma_trim_part(p);
            let d = choose|d: int| occurs_at(p, trim(p), d);
            lemma_occurs_chain(lower, clause, p, a, c);
            lemma_occurs_chain(lower, p, trim(p), a + c, d);
            assert forall|k: int| 0 <= k < ts[i].len() implies !is_term_sep(#[trigger] ts[i][k]) by {
                assert(trim(p)[k] == p[d + k]);
                assert(!is_term_sep(ps[j][d + k]));
            }
        }
    }
}

/// The prohibited terms of a rule: each occurs in the lower-cased rule, is
/// at least two bytes long, is no stop word and holds only alphanumeric
/// characters and `_`; a rule without any trigger phrase has none.
pub proof fn lemma_prohibited_terms_shape(rule: Seq<char>)
    ensures
        forall|i: int|
            0 <= i < prohibited_terms(rule).len() ==> term_shape(
                lower_of(rule),
                #[trigger] prohibited_terms(rule)[i],
            ),
        (forall|k: int| 0 <= k < 7 ==> !occurs_in(lower_of(rule), #[trigger] trigger_phrase(k)))
            ==> prohibited_terms(rule).len() == 0,
{
    lemma_terms_upto(lower_of(rule), 7);
}

proof fn lemma_terms_upto(lower: Seq<char>, k: int)
    ensures
        forall|i: int| 0 <= i < terms_upto(lower, k).len() ==> term_shape(lower, #[trigger] terms_upto(lower, k)[i]),
        (forall|m: int| 0 <= m < k ==> !occurs_in(lower, #[trigger] trigger_phrase(m))) ==> terms_upto(
            lower,
            k,
        ).len() == 0,
    decreases k,
{
    if k > 0 {
        lemma_terms_upto(lower, k - 1);
        lemma_terms_for(lower, trigger_phrase(k - 1));
        let a = terms_upto(lower, k - 1);
        let b = terms_for(lower, trigger_phrase(k - 1));
        assert forall|i: int| 0 <= i < (a + b).len() implies term_shape(lower, #[trigger] (a + b)[i]) by {
            if i < a.len() {
                assert((a + b)[i] == a[i]);
            } else {
                assert((a + b)[i] == b[i - a.len()]);
            }
        }
        if forall|m: int| 0 <= m < k ==> !occurs_in(lower, #[trigger] trigger_phrase(m)) {
            assert(!occurs_in(lower, trigger_phrase(k - 1)));
        }
    }
}

fn take_vec(v: &Vec<char>, n: usize) -> (r: Vec<char>)
    requires
        n <= v@.len(),
    ensures
        r@ == v@.take(n as int),
{
    let mut r: Vec<char> = Vec::new();
    let mut i: usize = 0;
    while i < n
        invariant
            i <= n <= v@.len(),
            r@ == v@.take(i as int),
        decreases n - i,
    {
        r.push(v[i]);
        assert(v@.take(i + 1) =~= v@.take(i as int).push(v@[i as int]));
        i += 1;
    }
    r
}

fn before_first_vec(h: &Vec<char>, n: &Vec<char>) -> (r: Vec<char>)
    ensures
        r@ == before_first(h@, n@),
{
    match find_from(h, n, 0) {
        Some(i) => {
            proof {
                assert(first_occurrence(h@, n@) == i as int) by {
                    let j = first_occurrence(h@, n@);
                    assert(occurs_at(h@, n@, i as int));
                    assert(occurs_at(h@, n@, j));
                    if j < i {
                    } else if j > i {
                    }
                }
            }
            take_vec(h, i)
        },
        None => {
            assert(!occurs_in(h@, n@));
            let mut r: Vec<char> = Vec::new();
            let k = h.len();
            let r = take_vec(h, k);
            assert(h@.take(k as int) =~= h@);
            r
        },
    }
}

fn first_clause_vec(s: &Vec<char>, from: usize) -> (r: Vec<char>)
    requires
        from <= s@.len(),
    ensures
        r@ == first_clause(s@.skip(from as int)),
{
    let mut r: Vec<char> = Vec::new();
    let mut i = from;
    while i < s.len() && !(s[i] == ',' || s[i] == '.' || s[i] == ';')
        invariant
            from <= i <= s@.len(),
            first_clause(s@.skip(from as int)) == r@ + first_clause(s@.skip(i as int)),
        decreases s@.len() - i,
    {
        assert(s@.skip(i as int).drop_first() =~= s@.skip(i + 1));
        assert(s@.skip(i as int)[0] == s@[i as int]);
        assert(r@.push(s@[i as int]) =~= r@ + seq![s@[i as int]]);
        r.push(s[i]);
        i += 1;
    }
    proof {
        if i < s@.len() {
            assert(s@.skip(i as int)[0] == s@[i as int]);
        }
        assert(r@ + first_clause(s@.skip(i as int)) =~= r@);
    }
    r
}

pub fn term_pieces_of(v: &Vec<char>) -> (r: Vec<Vec<char>>)
    ensures
        r@.len() == term_pieces(v@).len(),
        forall|i: int| 0 <= i < r@.len() ==> #[trigger] r@[i]@ == term_pieces(v@)[i],
{
    let mut done: Vec<Vec<char>> = Vec::new();
    let mut cur: Vec<char> = Vec::new();
    let mut i: usize = 0;
    assert(v@.take(0) =~= Seq::<char>::empty());
    while i < v.len()
        invariant
            i <= v@.len(),
            term_pieces(v@.take(i as int)).len() == done@.len() + 1,
            forall|k: int| 0 <= k < done@.len() ==> #[trigger] done@[k]@ == term_pieces(v@.take(i as int))[k],
            term_pieces(v@.take(i as int)).last() == cur@,
        decreases v@.len() - i,
    {
        let c = v[i];
        proof {
            assert(v@.take(i + 1).drop_last() =~= v@.take(i as int));
            assert(v@.take(i + 1).last() == c);
        }
        let is_sep = !char_is_alphanumeric(c) && c != '_';
        if is_sep {
            let moved = cur;
            done.push(moved);
            cur = Vec::new();
        } else {
            cur.push(c);
        }
        i += 1;
    }
    assert(v@.take(v@.len() as int) =~= v@);
    done.push(cur);
    done
}

fn is_stop(w: &Vec<char>) -> (r: bool)
    ensures
        r == is_stop_word(w@),
{
    let word = |x: &str| -> (b: bool)
        ensures
            b == (w@ == x@),
        { crate::paths::is_word(w, x) };
    word("the") || word("a") || word("an") || word("for") || word("to") || word("in") || word("on")
        || word("with") || word("and") || word("or") || word("use") || word("using") || word(
        "rule",
    ) || word("standard") || word("point")
}

fn terms_for_vec(lower: &Vec<char>, t: &str, out: &mut Vec<String>)
    ensures
        final(out)@.map_values(|s: String| s@) == old(out)@.map_values(|s: String| s@) + terms_for(
            lower@,
            t@,
        ),
{
    let tv = chars_of(t);
    let pos = match find_from(lower, &tv, 0) {
        None => {
            assert(!occurs_in(lower@, t@));
            assert(old(out)@.map_values(|s: String| s@) + Seq::<Seq<char>>::empty() =~= old(
                out,
            )@.map_values(|s: String| s@));
            return;
        },
        Some(i) => i,
    };
    proof {
        assert(first_occurrence(lower@, t@) == pos as int) by {
            let j = first_occurrence(lower@, t@);
            assert(occurs_at(lower@, tv@, pos as int));
        }
    }
    assert(occurs_at(lower@, tv@, pos as int));
    assert(pos + tv@.len() <= lower.len());
    let start = pos + tv.len();
    let c1 = first_clause_vec(lower, start);
    let c2 = before_first_vec(&c1, &chars_of("always"));
    let c3 = before_first_vec(&c2, &chars_of("instead"));
    let pieces = term_pieces_of(&c3);
    let ghost base = old(out)@.map_values(|s: String| s@);
    let ghost ps = term_pieces(c3@);
    let mut i: usize = 0;
    while i < pieces.len()
        invariant
            i <= pieces@.len(),
            pieces@.len() == ps.len(),
            forall|k: int| 0 <= k < pieces@.len() ==> #[trigger] pieces@[k]@ == ps[k],
            out@.map_values(|s: String| s@) == base + terms_of_pieces(ps.take(i as int)),
        decreases pieces@.len() - i,
    {
        let w = trim_chars(&pieces[i]);
        let ws = string_of(&w);
        let nbytes = ws.as_str().as_bytes().len();
        proof {
            assert(ps.take(i + 1).drop_last() =~= ps.take(i as int));
            assert(ps.take(i + 1).last() == pieces@[i as int]@);
        }
        if nbytes >= 2 && !is_stop(&w) {
            let ghost before = out@;
            out.push(ws);
            assert(out@.map_values(|s: String| s@) =~= before.map_values(|s: String| s@).push(w@));
        }
        i += 1;
    }
    assert(ps.take(ps.len() as int) =~= ps);
}

/// The terms a rule text forbids, phrase by phrase.
pub fn extract_prohibited_terms(rule_text: &str) -> (r: Vec<String>)
    ensures
        r@.map_values(|s: String| s@) == prohibited_terms(rule_text@),
{
    let lower = to_lower(rule_text);
    let lv = chars_of(lower.as_str());
    let mut out: Vec<String> = Vec::new();
    let mut i: usize = 0;
    assert(out@.map_values(|s: String| s@) =~= terms_upto(lv@, 0));
    while i < 7
        invariant
            i <= 7,
            lv@ == lower_of(rule_text@),
            out@.map_values(|s: String| s@) == terms_upto(lv@, i as int),
        decreases 7 - i,
    {
        let t = trigger_at(i);
        terms_for_vec(&lv, t, &mut out);
        i += 1;
    }
    out
}


/// A heading that opens the learnings section, ASCII case ignored.
pub open spec fn is_learnings_heading(t: Seq<char>) -> bool {
    let l = ascii_lower_seq(t);
    ||| l == "## key learnings:"@
    ||| l == "## key learnings"@
    ||| l == "## aprendizajes clave:"@
    ||| l == "## aprendizajes clave"@
}

/// A character of a list marker in front of a learning (`-`, `*`, a digit,
/// `.` or `)`).
pub open spec fn is_marker_char(c: char) -> bool {
    c == '-' || c == '*' || is_digit(c) || c == '.' || c == ')'
}

/// The text without its leading list-marker characters.
pub open spec fn strip_markers(s: Seq<char>) -> Seq<char>
    decreases s.len(),
{
    if s.len() > 0 && is_marker_char(s[0]) {
        strip_markers(s.drop_first())
    } else {
        s
    }
}

/// The learning a (trimmed) section line holds: its list marker removed,
/// then trimmed.
pub open spec fn learning_of(t: Seq<char>) -> Seq<char> {
    trim(strip_markers(t))
}

/// The learnings found in `lines` when the scan starts inside the section
/// (`in_section`) or outside it: a learnings heading opens the section;
/// inside it, another `## ` heading ends the scan, and every line whose
/// learning has at least 8 bytes gives that learning.
pub open spec fn learnings(lines: Seq<Seq<char>>, in_section: bool) -> Seq<Seq<char>>
    decreases lines.len(),
{
    if lines.len() == 0 {
        Seq::empty()
    } else {
        let t = trim(lines[0]);
        if is_learnings_heading(t) {
            learnings(lines.drop_first(), true)
        } else if in_section && has_prefix(t, "## "@) {
            Seq::empty()
        } else if !in_section {
            learnings(lines.drop_first(), false)
        } else {
            let item = learning_of(t);
            let rest = learnings(lines.drop_first(), true);
            if byte_len(item) >= 8 {
                seq![item] + rest
            } else {
                rest
            }
        }
    }
}

/// The title a learning is saved under: its first 80 characters.
pub open spec fn learning_title(item: Seq<char>) -> Seq<char> {
    if item.len() <= 80 {
        item
    } else {
        item.take(80)
    }
}

/// Every learning captured is at least 8 bytes long, and its title is its
/// start, at most 80 characters long.
pub proof fn lemma_learnings_are_substantial(lines: Seq<Seq<char>>, in_section: bool)
    ensures
        forall|i: int|
            0 <= i < learnings(lines, in_section).len() ==> byte_len(
                #[trigger] learnings(lines, in_section)[i],
            ) >= 8,
        forall|i: int|
            0 <= i < learnings(lines, in_section).len() ==> {
                let item = #[trigger] learnings(lines, in_section)[i];
                &&& learning_title(item).len() <= 80
                &&& has_prefix(item, learning_title(item))
            },
    decreases lines.len(),
{
    if lines.len() > 0 {
        lemma_learnings_are_substantial(lines.drop_first(), true);
        lemma_learnings_are_substantial(lines.drop_first(), false);
        let t = trim(lines[0]);
        let item = learning_of(t);
        let rest = learnings(lines.drop_first(), true);
        let res = learnings(lines, in_section);
        if !is_learnings_heading(t) && in_section && !has_prefix(t, "## "@) && byte_len(item) >= 8 {
            assert(res == seq![item] + rest);
            assert forall|i: int| 0 <= i < res.len() implies byte_len(#[trigger] res[i]) >= 8 by {
                if i > 0 {
                    assert(res[i] == rest[i - 1]);
                }
            }
            assert forall|i: int| 0 <= i < res.len() implies {
                let it = #[trigger] res[i];
                &&& learning_title(it).len() <= 80
                &&& has_prefix(it, learning_title(it))
            } by {
                if i > 0 {
                    assert(res[i] == rest[i - 1]);
                } else {
                    assert(item.take(learning_title(item).len() as int) =~= learning_title(item));
                }
            }
        } else if is_learnings_heading(t) {
            assert(res == rest);
        } else if in_section && has_prefix(t, "## "@) {
            assert(res == Seq::<Seq<char>>::empty());
        } else if !in_section {
            assert(res == learnings(lines.drop_first(), false));
        } else {
            assert(res == rest);
        }
    }
}

/// A learning to be saved as an observation.
#[derive(Debug, Clone)]
pub struct LearningNote {
    pub title: String,
    pub content: String,
}

fn is_learnings_heading_exec(t: &Vec<char>) -> (r: bool)
    ensures
        r == is_learnings_heading(t@),
{
    let l = ascii_lower_chars(t);
    is_word(&l, "## key learnings:") || is_word(&l, "## key learnings") || is_word(
        &l,
        "## aprendizajes clave:",
    ) || is_word(&l, "## aprendizajes clave")
}

fn strip_markers_chars(v: &Vec<char>) -> (r: Vec<char>)
    ensures
        r@ == strip_markers(v@),
{
    let mut i: usize = 0;
    assert(v@.skip(0) =~= v@);
    while i < v.len() && (v[i] == '-' || v[i] == '*' || ('0' <= v[i] && v[i] <= '9') || v[i]
        == '.' || v[i] == ')')
        invariant
            i <= v@.len(),
            strip_markers(v@) == strip_markers(v@.skip(i as int)),
        decreases v@.len() - i,
    {
        assert(v@.skip(i as int).drop_first() =~= v@.skip(i + 1));
        i += 1;
    }
    proof {
        if i < v@.len() {
            assert(v@.skip(i as int)[0] == v@[i as int]);
        }
    }
    let mut r: Vec<char> = Vec::new();
    let mut k = i;
    while k < v.len()
        invariant
            i <= k <= v@.len(),
            r@ == v@.subrange(i as int, k as int),
        decreases v@.len() - k,
    {
        r.push(v[k]);
        assert(v@.subrange(i as int, k + 1) =~= v@.subrange(i as int, k as int).push(v@[k as int]));
        k += 1;
    }
    assert(v@.subrange(i as int, v@.len() as int) =~= v@.skip(i as int));
    r
}

/// The learnings of a session text, each with the title it is saved under:
/// the list items of its "Key Learnings" (or "Aprendizajes clave") section,
/// from the heading to the next `## ` heading, that are at least 8 bytes
/// long once their marker and surrounding space are removed.
pub fn capture_learnings(text: &str) -> (r: Vec<LearningNote>)
    ensures
        r@.len() == learnings(text_lines(text@), false).len(),
        forall|i: int|
            0 <= i < r@.len() ==> {
                &&& (#[trigger] r@[i]).content@ == learnings(text_lines(text@), false)[i]
                &&& r@[i].title@ == learning_title(learnings(text_lines(text@), false)[i])
            },
{
    let v = chars_of(text);
    let lines = lines_of(&v);
    let ghost ls = text_lines(text@);
    let ghost all = learnings(ls, false);
    let marker = chars_of("## ");
    let mut out: Vec<LearningNote> = Vec::new();
    let ghost mut items: Seq<Seq<char>> = Seq::empty();
    let mut in_section = false;
    let mut i: usize = 0;
    assert(ls.skip(0) =~= ls);
    while i < lines.len()
        invariant
            lines@.len() == ls.len(),
            forall|j: int| 0 <= j < ls.len() ==> #[trigger] lines@[j]@ == ls[j],
            marker@ == "## "@,
            i <= ls.len(),
            all == learnings(ls, false),
            items + learnings(ls.skip(i as int), in_section) == all,
            out@.len() == items.len(),
            forall|j: int|
                0 <= j < items.len() ==> {
                    &&& (#[trigger] out@[j]).content@ == items[j]
                    &&& out@[j].title@ == learning_title(items[j])
                },
        decreases ls.len() - i,
    {
        let ghost rest = ls.skip(i as int);
        proof {
            assert(rest.drop_first() =~= ls.skip(i + 1));
            assert(rest[0] == ls[i as int]);
        }
        let t = trim_chars(&lines[i]);
        if is_learnings_heading_exec(&t) {
            in_section = true;
            i += 1;
        } else if in_section && starts_with(&t, &marker) {
            assert(items + learnings(ls.skip(ls.len() as int), true) =~= all);
            in_section = true;
            i = lines.len();
        } else if !in_section {
            i += 1;
        } else {
            let item = trim_chars(&strip_markers_chars(&t));
            if byte_count(&item) >= 8 {
                let title = if item.len() <= 80 {
                    string_of(&item)
                } else {
                    string_of_range(&item, 0, 80)
                };
                let content = string_of(&item);
                out.push(LearningNote { title, content });
                proof {
                    assert(items.push(item@) + learnings(ls.skip(i + 1), true) =~= items + (seq![
                        item@,
                    ] + learnings(ls.skip(i + 1), true)));
                    items = items.push(item@);
                }
            }
            i += 1;
        }
    }
    assert(ls.skip(i as int) =~= Seq::<Seq<char>>::empty());
    assert(items =~= all);
    out
}

} // verus!

