//! Character-level helpers shared by the path, query and memory modules.
//!
//! Text is reasoned about through its view, the sequence of `char`s.

use vstd::prelude::*;
use vstd::std_specs::iter::IteratorSpec;
use vstd::string::StringSliceAdditionalSpecFns;
use vstd::utf8::encode_utf8;

verus! {

broadcast use vstd::string::group_string_axioms;

/// `c` is one of the characters Unicode lists with the White_Space property
/// (the set `char::is_whitespace` tests).
pub open spec fn is_ws(c: char) -> bool {
    ||| ('\u{9}' <= c && c <= '\u{d}')
    ||| c == ' '
    ||| c == '\u{85}'
    ||| c == '\u{a0}'
    ||| c == '\u{1680}'
    ||| ('\u{2000}' <= c && c <= '\u{200a}')
    ||| c == '\u{2028}'
    ||| c == '\u{2029}'
    ||| c == '\u{202f}'
    ||| c == '\u{205f}'
    ||| c == '\u{3000}'
}

/// ASCII lower-casing of one character; other characters are kept.
pub open spec fn ascii_lower(c: char) -> char {
    if 'A' <= c && c <= 'Z' {
        ((c as u32) + 32) as char
    } else {
        c
    }
}

/// ASCII upper-casing of one character; other characters are kept.
pub open spec fn ascii_upper(c: char) -> char {
    if 'a' <= c && c <= 'z' {
        ((c as u32) - 32) as char
    } else {
        c
    }
}

pub open spec fn is_ascii_seq(s: Seq<char>) -> bool {
    forall|i: int| 0 <= i < s.len() ==> (s[i] as u32) < 128
}

/// Unicode lower-casing of a whole string, as `str::to_lowercase` computes it.
pub uninterp spec fn lower_of(s: Seq<char>) -> Seq<char>;

/// Unicode upper-casing of a whole string, as `str::to_uppercase` computes it.
pub uninterp spec fn upper_of(s: Seq<char>) -> Seq<char>;

/// Unicode Alphabetic-or-Numeric test, as `char::is_alphanumeric` computes it.
pub uninterp spec fn alnum_of(c: char) -> bool;

pub open spec fn is_ascii_alnum(c: char) -> bool {
    ('a' <= c && c <= 'z') || ('A' <= c && c <= 'Z') || ('0' <= c && c <= '9')
}

pub open spec fn is_digit(c: char) -> bool {
    '0' <= c && c <= '9'
}

/// `p` is a prefix of `s`.
pub open spec fn has_prefix(s: Seq<char>, p: Seq<char>) -> bool {
    p.len() <= s.len() && s.take(p.len() as int) == p
}

/// `p` is a suffix of `s`.
pub open spec fn has_suffix(s: Seq<char>, p: Seq<char>) -> bool {
    p.len() <= s.len() && s.skip(s.len() - p.len()) == p
}

/// `n` occurs in `h` starting at index `i`.
pub open spec fn occurs_at(h: Seq<char>, n: Seq<char>, i: int) -> bool {
    0 <= i && i + n.len() <= h.len() && h.subrange(i, i + n.len()) == n
}

/// `n` occurs somewhere in `h`.
pub open spec fn occurs_in(h: Seq<char>, n: Seq<char>) -> bool {
    exists|i: int| occurs_at(h, n, i)
}

/// Every character mapped through `ascii_lower`.
pub open spec fn ascii_lower_seq(s: Seq<char>) -> Seq<char> {
    s.map_values(|c: char| ascii_lower(c))
}

/// Every character mapped through `ascii_upper`.
pub open spec fn ascii_upper_seq(s: Seq<char>) -> Seq<char> {
    s.map_values(|c: char| ascii_upper(c))
}

/// ASCII lower-casing of every character.
pub fn ascii_lower_chars(v: &Vec<char>) -> (r: Vec<char>)
    ensures
        r@ == ascii_lower_seq(v@),
{
    let mut r: Vec<char> = Vec::new();
    let mut i: usize = 0;
    while i < v.len()
        invariant
            i <= v@.len(),
            r@ == ascii_lower_seq(v@.take(i as int)),
        decreases v@.len() - i,
    {
        let c = v[i];
        let l = if 'A' <= c && c <= 'Z' {
            ((c as u8) + 32) as char
        } else {
            c
        };
        assert(l == ascii_lower(c)) by {
            if 'A' <= c && c <= 'Z' {
                assert(((c as u8) + 32) as char == ((c as u32) + 32) as char);
            }
        }
        r.push(l);
        assert(ascii_lower_seq(v@.take(i + 1)) =~= ascii_lower_seq(v@.take(i as int)).push(l));
        i += 1;
    }
    assert(v@.take(i as int) =~= v@);
    r
}

/// The length of a text in UTF-8 bytes.
pub open spec fn byte_len(s: Seq<char>) -> int {
    encode_utf8(s).len() as int
}

/// The UTF-8 bytes of ASCII text: one per character, and every position
/// from the start to the end is a character boundary.
pub proof fn lemma_ascii_boundary(s: Seq<char>, k: int)
    requires
        is_ascii_seq(s),
        0 <= k <= s.len(),
    ensures
        byte_len(s) == s.len(),
        vstd::utf8::is_char_boundary(encode_utf8(s), k),
    decreases s.len(),
{
    vstd::utf8::encode_utf8_valid_utf8(s);
    if s.len() > 0 {
        let t = s.drop_first();
        assert(is_ascii_seq(t)) by {
            assert forall|i: int| 0 <= i < t.len() implies (t[i] as u32) < 128 by {
                assert(t[i] == s[i + 1]);
            }
        }
        assert((s[0] as u32) < 128);
        vstd::utf8::encode_utf8_first_scalar(s);
        assert(vstd::utf8::encode_scalar(s[0] as u32).len() == 1);
        let b = encode_utf8(s);
        assert(vstd::utf8::pop_first_scalar(b) =~= encode_utf8(t));
        if k > 0 {
            lemma_ascii_boundary(t, k - 1);
        } else {
            lemma_ascii_boundary(t, 0);
        }
    }
}

/// The number of UTF-8 bytes of a character vector.
pub fn byte_count(v: &Vec<char>) -> (n: usize)
    ensures
        n == byte_len(v@),
{
    let s = string_of(v);
    let b = s.as_str().as_bytes();
    b.len()
}

/// No character is an ASCII capital letter.
pub open spec fn no_ascii_upper(s: Seq<char>) -> bool {
    forall|i: int| 0 <= i < s.len() ==> !('A' <= #[trigger] s[i] && s[i] <= 'Z')
}

/// `str::to_lowercase`. For ASCII text this is the ASCII mapping; and no
/// character's lower-case mapping is an ASCII capital letter.
#[verifier::external_body]
pub(crate) fn to_lower(s: &str) -> (r: String)
    ensures
        r@ == lower_of(s@),
        is_ascii_seq(s@) ==> r@ == ascii_lower_seq(s@),
        no_ascii_upper(r@),
{
    s.to_lowercase()
}

/// `str::to_uppercase`. For ASCII text this is the ASCII mapping.
#[verifier::external_body]
pub(crate) fn to_upper(s: &str) -> (r: String)
    ensures
        r@ == upper_of(s@),
        is_ascii_seq(s@) ==> r@ == ascii_upper_seq(s@),
{
    s.to_uppercase()
}

/// `char::is_alphanumeric`. ASCII letters and digits are alphanumeric; other
/// ASCII characters are not.
#[verifier::external_body]
pub(crate) fn char_is_alphanumeric(c: char) -> (r: bool)
    ensures
        r == alnum_of(c),
        (c as u32) < 128 ==> (r == is_ascii_alnum(c)),
{
    c.is_alphanumeric()
}

/// `String::push`: appends one character.
#[verifier::external_body]
pub(crate) fn push_char(s: &mut String, c: char)
    ensures
        final(s)@ == old(s)@.push(c),
{
    s.push(c);
}

/// `char::is_whitespace`, written out over the White_Space list.
pub fn char_is_ws(c: char) -> (r: bool)
    ensures
        r == is_ws(c),
{
    ('\u{9}' <= c && c <= '\u{d}') || c == ' ' || c == '\u{85}' || c == '\u{a0}' || c == '\u{1680}'
        || ('\u{2000}' <= c && c <= '\u{200a}') || c == '\u{2028}' || c == '\u{2029}' || c
        == '\u{202f}' || c == '\u{205f}' || c == '\u{3000}'
}

/// The characters of `s`, in order.
pub fn chars_of(s: &str) -> (v: Vec<char>)
    ensures
        v@ == s@,
{
    let mut v: Vec<char> = Vec::new();
    let mut it = s.chars();
    loop
        invariant
            it.remaining() == s@.skip(v@.len() as int),
            v@ == s@.take(v@.len() as int),
            v@.len() <= s@.len(),
        ensures
            v@ == s@,
        decreases s@.len() - v@.len(),
    {
        match it.next() {
            Some(c) => {
                assert(s@.take(v@.len() as int + 1) =~= s@.take(v@.len() as int).push(c));
                v.push(c);
            },
            None => {
                assert(s@.take(v@.len() as int) =~= s@);
                break;
            },
        }
    }
    v
}

/// Appends the characters `v[from..to]` to `s`.
pub fn push_range(s: &mut String, v: &Vec<char>, from: usize, to: usize)
    requires
        from <= to <= v@.len(),
    ensures
        final(s)@ == old(s)@ + v@.subrange(from as int, to as int),
{
    let mut i = from;
    while i < to
        invariant
            from <= i <= to <= v@.len(),
            s@ == old(s)@ + v@.subrange(from as int, i as int),
        decreases to - i,
    {
        push_char(s, v[i]);
        assert(v@.subrange(from as int, i as int + 1) =~= v@.subrange(from as int, i as int).push(
            v@[i as int],
        ));
        i += 1;
    }
}

/// Appends all characters of `v` to `s`.
pub fn push_all(s: &mut String, v: &Vec<char>)
    ensures
        final(s)@ == old(s)@ + v@,
{
    push_range(s, v, 0, v.len());
    assert(v@.subrange(0, v@.len() as int) =~= v@);
}

/// Appends all characters of `t` to `s`.
pub fn push_str(s: &mut String, t: &str)
    ensures
        final(s)@ == old(s)@ + t@,
{
    let v = chars_of(t);
    push_all(s, &v);
}

/// A `String` holding exactly the characters `v[from..to]`.
pub fn string_of_range(v: &Vec<char>, from: usize, to: usize) -> (s: String)
    requires
        from <= to <= v@.len(),
    ensures
        s@ == v@.subrange(from as int, to as int),
{
    let mut s = String::new();
    push_range(&mut s, v, from, to);
    s
}

/// A `String` holding exactly the characters of `v`.
pub fn string_of(v: &Vec<char>) -> (s: String)
    ensures
        s@ == v@,
{
    let mut s = String::new();
    push_all(&mut s, v);
    s
}

/// An owned copy of `t`.
pub fn owned(t: &str) -> (s: String)
    ensures
        s@ == t@,
{
    t.to_owned()
}

/// `v[from..from + p.len()] == p`.
pub fn matches_at(v: &Vec<char>, p: &Vec<char>, from: usize) -> (r: bool)
    ensures
        r == occurs_at(v@, p@, from as int),
{
    if from > v.len() || p.len() > v.len() - from {
        return false;
    }
    let mut j: usize = 0;
    while j < p.len()
        invariant
            from + p@.len() <= v.len(),
            j <= p@.len(),
            forall|k: int| 0 <= k < j ==> v@[from + k] == p@[k],
        decreases p@.len() - j,
    {
        if v[from + j] != p[j] {
            assert(v@.subrange(from as int, from + p@.len())[j as int] != p@[j as int]);
            return false;
        }
        j += 1;
    }
    assert(v@.subrange(from as int, from + p@.len()) =~= p@);
    true
}

/// `p` is a prefix of `v`.
pub fn starts_with(v: &Vec<char>, p: &Vec<char>) -> (r: bool)
    ensures
        r == has_prefix(v@, p@),
{
    let r = matches_at(v, p, 0);
    proof {
        if p@.len() <= v@.len() {
            assert(v@.subrange(0, p@.len() as int) =~= v@.take(p@.len() as int));
        }
    }
    r
}

/// `p` is a suffix of `v`.
pub fn ends_with(v: &Vec<char>, p: &Vec<char>) -> (r: bool)
    ensures
        r == has_suffix(v@, p@),
{
    if p.len() > v.len() {
        return false;
    }
    let r = matches_at(v, p, v.len() - p.len());
    assert(v@.subrange(v@.len() - p@.len(), v@.len() as int) =~= v@.skip(v@.len() - p@.len()));
    r
}

/// The first index at which `p` occurs in `v` at or after `from`, if any.
pub fn find_from(v: &Vec<char>, p: &Vec<char>, from: usize) -> (r: Option<usize>)
    ensures
        match r {
            Some(i) => from <= i && occurs_at(v@, p@, i as int) && forall|k: int|
                from <= k < i ==> !occurs_at(v@, p@, k),
            None => forall|k: int| from <= k ==> !occurs_at(v@, p@, k),
        },
{
    if from > v.len() {
        return None;
    }
    let mut i = from;
    loop
        invariant
            from <= i <= v.len(),
            forall|k: int| from <= k < i ==> !occurs_at(v@, p@, k),
        decreases v@.len() - i,
    {
        if matches_at(v, p, i) {
            return Some(i);
        }
        if i == v.len() {
            return None;
        }
        i += 1;
    }
}

/// `p` occurs somewhere in `v`.
pub fn contains(v: &Vec<char>, p: &Vec<char>) -> (r: bool)
    ensures
        r == occurs_in(v@, p@),
{
    match find_from(v, p, 0) {
        Some(i) => true,
        None => {
            assert(forall|k: int| !occurs_at(v@, p@, k));
            false
        },
    }
}

/// Character-wise equality of two strings.
pub fn str_eq(a: &str, b: &str) -> (r: bool)
    ensures
        r == (a@ == b@),
{
    let va = chars_of(a);
    let vb = chars_of(b);
    if va.len() != vb.len() {
        return false;
    }
    let r = matches_at(&va, &vb, 0);
    assert(va@.subrange(0, vb@.len() as int) =~= va@);
    r
}


/// The text split at every `sep`, empty pieces included.
pub open spec fn split_on(s: Seq<char>, sep: char) -> Seq<Seq<char>>
    decreases s.len(),
{
    if s.len() == 0 {
        seq![Seq::<char>::empty()]
    } else {
        let r = split_on(s.drop_last(), sep);
        if s.last() == sep {
            r.push(Seq::<char>::empty())
        } else {
            r.update(r.len() - 1, r.last().push(s.last()))
        }
    }
}

/// The non-empty pieces, in order.
pub open spec fn nonempty_pieces(ps: Seq<Seq<char>>) -> Seq<Seq<char>>
    decreases ps.len(),
{
    if ps.len() == 0 {
        Seq::empty()
    } else if ps.last().len() > 0 {
        nonempty_pieces(ps.drop_last()).push(ps.last())
    } else {
        nonempty_pieces(ps.drop_last())
    }
}

/// Pieces joined with `sep` between them.
pub open spec fn join_char(ws: Seq<Seq<char>>, sep: char) -> Seq<char>
    decreases ws.len(),
{
    if ws.len() == 0 {
        Seq::empty()
    } else if ws.len() == 1 {
        ws[0]
    } else {
        join_char(ws.drop_last(), sep).push(sep) + ws.last()
    }
}

/// `v` split at every `sep`, empty pieces dropped.
pub fn split_nonempty(v: &Vec<char>, sep: char) -> (r: Vec<Vec<char>>)
    ensures
        r@.len() == nonempty_pieces(split_on(v@, sep)).len(),
        forall|i: int| 0 <= i < r@.len() ==> #[trigger] r@[i]@ == nonempty_pieces(split_on(v@, sep))[i],
{
    let mut done: Vec<Vec<char>> = Vec::new();
    let mut cur: Vec<char> = Vec::new();
    let ghost mut pieces: Seq<Seq<char>> = Seq::empty();
    let mut i: usize = 0;
    assert(v@.take(0) =~= Seq::<char>::empty());
    while i < v.len()
        invariant
            i <= v@.len(),
            split_on(v@.take(i as int), sep) == pieces.push(cur@),
            done@.len() == nonempty_pieces(pieces).len(),
            forall|k: int| 0 <= k < done@.len() ==> #[trigger] done@[k]@ == nonempty_pieces(pieces)[k],
        decreases v@.len() - i,
    {
        let c = v[i];
        proof {
            assert(v@.take(i + 1).drop_last() =~= v@.take(i as int));
            assert(v@.take(i + 1).last() == c);
        }
        if c == sep {
            proof {
                assert(pieces.push(cur@).drop_last() =~= pieces);
            }
            if cur.len() > 0 {
                let moved = cur;
                done.push(moved);
                cur = Vec::new();
            } else {
                cur = Vec::new();
            }
            proof {
                pieces = pieces.push(split_on(v@.take(i as int), sep).last());
            }
        } else {
            proof {
                let old_cur = cur@;
                assert(pieces.push(old_cur).update(pieces.len() as int, old_cur.push(c)) =~= pieces.push(
                    old_cur.push(c),
                ));
            }
            cur.push(c);
        }
        i += 1;
    }
    proof {
        assert(v@.take(v@.len() as int) =~= v@);
        assert(pieces.push(cur@).drop_last() =~= pieces);
    }
    if cur.len() > 0 {
        done.push(cur);
    }
    done
}

/// Pieces joined with `sep` between them.
pub fn join_vecs(ws: &Vec<Vec<char>>, sep: char) -> (r: Vec<char>)
    ensures
        r@ == join_char(ws@.map_values(|w: Vec<char>| w@), sep),
{
    let ghost views = ws@.map_values(|w: Vec<char>| w@);
    let mut r: Vec<char> = Vec::new();
    let mut i: usize = 0;
    while i < ws.len()
        invariant
            i <= ws@.len(),
            views == ws@.map_values(|w: Vec<char>| w@),
            r@ == join_char(views.take(i as int), sep),
        decreases ws@.len() - i,
    {
        if i > 0 {
            r.push(sep);
        }
        let mut j: usize = 0;
        let ghost mid = r@;
        while j < ws[i].len()
            invariant
                i < ws@.len(),
                j <= ws@[i as int]@.len(),
                r@ == mid + ws@[i as int]@.take(j as int),
            decreases ws@[i as int]@.len() - j,
        {
            r.push(ws[i][j]);
            assert(ws@[i as int]@.take(j + 1) =~= ws@[i as int]@.take(j as int).push(ws@[i as int]@[j as int]));
            j += 1;
        }
        proof {
            assert(ws@[i as int]@.take(j as int) =~= ws@[i as int]@);
            let tk = views.take(i + 1);
            assert(tk.drop_last() =~= views.take(i as int));
            if i == 0 {
                assert(r@ =~= tk[0]);
            }
        }
        i += 1;
    }
    assert(views.take(ws@.len() as int) =~= views);
    r
}

/// The lower-cased text of a character vector.
pub fn lower_chars(v: &Vec<char>) -> (r: Vec<char>)
    ensures
        r@ == lower_of(v@),
        is_ascii_seq(v@) ==> r@ == ascii_lower_seq(v@),
        no_ascii_upper(r@),
{
    let s = string_of(v);
    let l = to_lower(s.as_str());
    chars_of(l.as_str())
}

/// `v` split at every `sep`, empty pieces included.
pub fn split_all(v: &Vec<char>, sep: char) -> (r: Vec<Vec<char>>)
    ensures
        r@.len() == split_on(v@, sep).len(),
        forall|i: int| 0 <= i < r@.len() ==> #[trigger] r@[i]@ == split_on(v@, sep)[i],
{
    let mut done: Vec<Vec<char>> = Vec::new();
    let mut cur: Vec<char> = Vec::new();
    let mut i: usize = 0;
    assert(v@.take(0) =~= Seq::<char>::empty());
    while i < v.len()
        invariant
            i <= v@.len(),
            split_on(v@.take(i as int), sep).len() == done@.len() + 1,
            forall|k: int| 0 <= k < done@.len() ==> #[trigger] done@[k]@ == split_on(v@.take(i as int), sep)[k],
            cur@ == split_on(v@.take(i as int), sep).last(),
        decreases v@.len() - i,
    {
        let c = v[i];
        proof {
            assert(v@.take(i + 1).drop_last() =~= v@.take(i as int));
            assert(v@.take(i + 1).last() == c);
        }
        if c == sep {
            let moved = cur;
            done.push(moved);
            cur = Vec::new();
        } else {
            cur.push(c);
        }
        i += 1;
    }
    assert(v@.take(v@.len() as int) =~= v@);
    done.push(cur);
    done
}

/// Whether `c` occurs in `v`.
pub fn has_char(v: &Vec<char>, c: char) -> (r: bool)
    ensures
        r == v@.contains(c),
{
    let mut i: usize = 0;
    while i < v.len()
        invariant
            i <= v@.len(),
            forall|k: int| 0 <= k < i ==> v@[k] != c,
        decreases v@.len() - i,
    {
        if v[i] == c {
            assert(v@[i as int] == c);
            return true;
        }
        i += 1;
    }
    false
}

/// Splitting always gives at least one piece.
pub proof fn lemma_split_on_len(s: Seq<char>, sep: char)
    ensures
        split_on(s, sep).len() >= 1,
    decreases s.len(),
{
    if s.len() > 0 {
        lemma_split_on_len(s.drop_last(), sep);
    }
}

/// A line without the `\r` of a `\r\n` ending.
pub open spec fn strip_cr(p: Seq<char>) -> Seq<char> {
    if p.len() > 0 && p.last() == '\r' {
        p.drop_last()
    } else {
        p
    }
}

/// The lines of a text as `str::lines` gives them: split at `\n`, a `\r`
/// before the `\n` dropped, no empty line after a final `\n`.
pub open spec fn text_lines(s: Seq<char>) -> Seq<Seq<char>> {
    let ps = split_on(s, '\n');
    let init = ps.drop_last().map_values(|p: Seq<char>| strip_cr(p));
    if ps.last().len() == 0 {
        init
    } else {
        init.push(ps.last())
    }
}

/// The lines of `v` as `str::lines` gives them.
pub fn lines_of(v: &Vec<char>) -> (r: Vec<Vec<char>>)
    ensures
        r@.len() == text_lines(v@).len(),
        forall|i: int| 0 <= i < r@.len() ==> #[trigger] r@[i]@ == text_lines(v@)[i],
{
    let pieces = split_all(v, '\n');
    let ghost ps = split_on(v@, '\n');
    proof {
        lemma_split_on_len(v@, '\n');
    }
    let ghost init = ps.drop_last().map_values(|p: Seq<char>| strip_cr(p));
    let n = pieces.len();
    let mut r: Vec<Vec<char>> = Vec::new();
    let mut j: usize = 0;
    while j + 1 < n
        invariant
            n == pieces@.len(),
            n == ps.len(),
            n >= 1,
            j + 1 <= n,
            ps == split_on(v@, '\n'),
            init == ps.drop_last().map_values(|p: Seq<char>| strip_cr(p)),
            forall|i: int| 0 <= i < n ==> #[trigger] pieces@[i]@ == ps[i],
            r@.len() == j,
            forall|i: int| 0 <= i < j ==> #[trigger] r@[i]@ == init[i],
        decreases n - j,
    {
        let mut line = pieces[j].clone();
        assert(line@ == ps[j as int]) by {
            assert(line@ =~= pieces@[j as int]@);
        }
        if line.len() > 0 && line[line.len() - 1] == '\r' {
            line.pop();
        }
        assert(line@ == strip_cr(ps[j as int])) by {
            assert(line@ =~= strip_cr(ps[j as int]));
        }
        r.push(line);
        j += 1;
    }
    let last = pieces[n - 1].clone();
    assert(last@ =~= ps.last());
    if last.len() > 0 {
        r.push(last);
    }
    r
}

} // verus!

