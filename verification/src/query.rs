//! The safe query translator: turns a free-form query into a bounded,
//! read-only request and shapes its answer.

use vstd::prelude::*;
use vstd::string::StringSliceAdditionalSpecFns;
use vstd::utf8::{decode_utf8, encode_utf8, encode_utf8_decode_utf8, is_char_boundary};
use crate::paths::{trim, trim_chars};
use crate::text::{lemma_ascii_boundary,
    chars_of, char_is_ws, is_digit, is_ws, lower_of, occurs_in, contains, push_char, push_str,
    string_of, to_lower, is_ascii_seq,
};

verus! {

broadcast use vstd::string::group_string_axioms;

#[derive(Debug, Clone)]
pub struct QueryTranslatorOutput {
    pub mode: &'static str,
    pub intent: String,
    pub query: String,
    pub results: Vec<QueryTranslatorResult>,
    pub suggestions: Vec<String>,
}

#[derive(Debug, Clone)]
pub struct QueryTranslatorResult {
    pub kind: String,
    pub path: Option<String>,
    pub line: Option<usize>,
    pub title: String,
    pub detail: String,
}

// ---------------------------------------------------------------------------
// Tokenising
// ---------------------------------------------------------------------------

/// The tokenizer state after some prefix: tokens found, current token, and
/// whether a quote is open.
pub struct TokState {
    pub tokens: Seq<Seq<char>>,
    pub current: Seq<char>,
    pub in_quotes: bool,
}

/// One tokenizer step: `"` toggles quoting, unquoted white space ends the
/// current token, every other character extends it.
pub open spec fn tok_step(st: TokState, c: char) -> TokState {
    if c == '"' {
        TokState { in_quotes: !st.in_quotes, ..st }
    } else if is_ws(c) && !st.in_quotes {
        if st.current.len() > 0 {
            TokState { tokens: st.tokens.push(st.current), current: Seq::empty(), ..st }
        } else {
            st
        }
    } else {
        TokState { current: st.current.push(c), ..st }
    }
}

pub open spec fn tok_run(s: Seq<char>) -> TokState
    decreases s.len(),
{
    if s.len() == 0 {
        TokState { tokens: Seq::empty(), current: Seq::empty(), in_quotes: false }
    } else {
        tok_step(tok_run(s.drop_last()), s.last())
    }
}

/// The tokens of a query: white-space separated, with `"…"` grouping words and
/// the quote characters themselves dropped.
pub open spec fn query_tokens(s: Seq<char>) -> Seq<Seq<char>> {
    let st = tok_run(s);
    if st.current.len() > 0 {
        st.tokens.push(st.current)
    } else {
        st.tokens
    }
}

pub fn split_query_tokens(raw: &str) -> (r: Vec<String>)
    ensures
        r@.len() == query_tokens(raw@).len(),
        forall|i: int| 0 <= i < r@.len() ==> #[trigger] r@[i]@ == query_tokens(raw@)[i],
{
    let v = chars_of(raw);
    let mut tokens: Vec<String> = Vec::new();
    let mut current: Vec<char> = Vec::new();
    let mut in_quotes = false;
    let mut i: usize = 0;
    while i < v.len()
        invariant
            i <= v@.len(),
            v@ == raw@,
            tok_run(v@.take(i as int)).tokens.len() == tokens@.len(),
            forall|k: int|
                0 <= k < tokens@.len() ==> #[trigger] tokens@[k]@ == tok_run(
                    v@.take(i as int),
                ).tokens[k],
            tok_run(v@.take(i as int)).current == current@,
            tok_run(v@.take(i as int)).in_quotes == in_quotes,
        decreases v@.len() - i,
    {
        let c = v[i];
        proof {
            assert(v@.take(i + 1).drop_last() =~= v@.take(i as int));
            assert(v@.take(i + 1).last() == c);
        }
        if c == '"' {
            in_quotes = !in_quotes;
        } else if char_is_ws(c) && !in_quotes {
            if current.len() > 0 {
                let t = string_of(&current);
                tokens.push(t);
                current = Vec::new();
            }
        } else {
            current.push(c);
        }
        i += 1;
    }
    proof {
        assert(v@.take(v@.len() as int) =~= v@);
    }
    if current.len() > 0 {
        let t = string_of(&current);
        tokens.push(t);
    }
    tokens
}

// ---------------------------------------------------------------------------
// Line ranges
// ---------------------------------------------------------------------------

pub open spec fn digit_value(c: char) -> nat {
    ((c as u32) - ('0' as u32)) as nat
}

/// The value of a string of decimal digits.
pub open spec fn decimal_value(d: Seq<char>) -> nat
    decreases d.len(),
{
    if d.len() == 0 {
        0
    } else {
        decimal_value(d.drop_last()) * 10 + digit_value(d.last())
    }
}

pub open spec fn all_digits(d: Seq<char>) -> bool {
    forall|i: int| 0 <= i < d.len() ==> is_digit(#[trigger] d[i])
}

/// `usize::from_str`: an optional `+`, then at least one decimal digit, and a
/// value that fits in `usize`.
pub open spec fn parse_usize_spec(s: Seq<char>) -> Option<usize> {
    let d = if s.len() > 0 && s[0] == '+' {
        s.drop_first()
    } else {
        s
    };
    if d.len() > 0 && all_digits(d) && decimal_value(d) <= usize::MAX {
        Some(decimal_value(d) as usize)
    } else {
        None
    }
}

proof fn lemma_decimal_monotone(d: Seq<char>, k: int)
    requires
        all_digits(d),
        0 <= k <= d.len(),
    ensures
        decimal_value(d.take(k)) <= decimal_value(d),
    decreases d.len() - k,
{
    if k < d.len() {
        lemma_decimal_monotone(d, k + 1);
        assert(d.take(k + 1).drop_last() =~= d.take(k));
    } else {
        assert(d.take(k) =~= d);
    }
}

/// Parses a decimal `usize` the way `str::parse::<usize>` does.
pub fn parse_usize(v: &Vec<char>) -> (r: Option<usize>)
    ensures
        r == parse_usize_spec(v@),
{
    let start: usize = if v.len() > 0 && v[0] == '+' { 1 } else { 0 };
    let ghost d = if v@.len() > 0 && v@[0] == '+' {
        v@.drop_first()
    } else {
        v@
    };
    assert(d =~= v@.skip(start as int));
    if start >= v.len() {
        return None;
    }
    let mut acc: usize = 0;
    let mut i = start;
    while i < v.len()
        invariant
            start <= i <= v@.len(),
            d == v@.skip(start as int),
            d == (if v@.len() > 0 && v@[0] == '+' {
                v@.drop_first()
            } else {
                v@
            }),
            all_digits(d.take(i - start)),
            acc as nat == decimal_value(d.take(i - start)),
        decreases v@.len() - i,
    {
        let c = v[i];
        proof {
            assert(d.take(i + 1 - start).drop_last() =~= d.take(i - start));
            assert(d.take(i + 1 - start).last() == c);
        }
        if !('0' <= c && c <= '9') {
            proof {
                assert(d[(i - start) as int] == c);
                assert(!is_digit(d[(i - start) as int]));
                assert(!all_digits(d));
            }
            return None;
        }
        let dig = (c as u32 - '0' as u32) as usize;
        let m = acc.checked_mul(10);
        match m {
            None => {
                proof {
                    assert(all_digits(d.take(i + 1 - start)));
                    if all_digits(d) {
                        lemma_decimal_monotone(d, i + 1 - start);
                        assert(decimal_value(d) > usize::MAX);
                    }
                }
                return None;
            },
            Some(m) => {
                match m.checked_add(dig) {
                    None => {
                        proof {
                            assert(all_digits(d.take(i + 1 - start)));
                            if all_digits(d) {
                                lemma_decimal_monotone(d, i + 1 - start);
                            }
                        }
                        return None;
                    },
                    Some(n) => {
                        acc = n;
                    },
                }
            },
        }
        i += 1;
    }
    assert(d.take(v@.len() - start) =~= d);
    Some(acc)
}

/// The first `-` of an argument splits it into two halves.
pub open spec fn dash_split(s: Seq<char>) -> Option<(Seq<char>, Seq<char>)> {
    if exists|i: int| 0 <= i < s.len() && s[i] == '-' {
        let i = choose|i: int| 0 <= i < s.len() && s[i] == '-' && forall|k: int| 0 <= k < i ==> s[k] != '-';
        Some((s.take(i), s.skip(i + 1)))
    } else {
        None
    }
}

/// The line range an argument spells (`start-end`, either order), if any.
pub open spec fn arg_range(s: Seq<char>) -> Option<(usize, usize)> {
    match dash_split(s) {
        Some((a, b)) => match (parse_usize_spec(a), parse_usize_spec(b)) {
            (Some(x), Some(y)) => Some(if x <= y { (x, y) } else { (y, x) }),
            _ => None,
        },
        None => None,
    }
}

/// Arguments that are not line ranges, in order.
pub open spec fn non_range_args(args: Seq<Seq<char>>) -> Seq<Seq<char>>
    decreases args.len(),
{
    if args.len() == 0 {
        Seq::empty()
    } else if arg_range(args.last()) is Some {
        non_range_args(args.drop_last())
    } else {
        non_range_args(args.drop_last()).push(args.last())
    }
}

/// The range of the last argument that is a line range.
pub open spec fn last_range(args: Seq<Seq<char>>) -> Option<(usize, usize)>
    decreases args.len(),
{
    if args.len() == 0 {
        None
    } else if arg_range(args.last()) is Some {
        arg_range(args.last())
    } else {
        last_range(args.drop_last())
    }
}

/// The line range taken from the arguments is ordered, and it is the range
/// of the last argument that is one: no argument after it is a range. With
/// no range among the arguments there is none, and every argument is kept.
pub proof fn lemma_last_range(args: Seq<Seq<char>>)
    ensures
        last_range(args) matches Some((a, b)) ==> a <= b && exists|i: int|
            0 <= i < args.len() && #[trigger] arg_range(args[i]) == Some((a, b)) && forall|j: int|
                i < j < args.len() ==> arg_range(#[trigger] args[j]) is None,
        last_range(args) is None ==> non_range_args(args) == args,
    decreases args.len(),
{
    if args.len() > 0 {
        let t = args.drop_last();
        lemma_last_range(t);
        if arg_range(args.last()) is Some {
            assert(arg_range(args[args.len() - 1]) == last_range(args));
        } else {
            if let Some((a, b)) = last_range(t) {
                let i = choose|i: int|
                    0 <= i < t.len() && #[trigger] arg_range(t[i]) == Some((a, b)) && forall|j: int|
                        i < j < t.len() ==> arg_range(#[trigger] t[j]) is None;
                assert(arg_range(args[i]) == Some((a, b)));
                assert forall|j: int| i < j < args.len() implies arg_range(#[trigger] args[j]) is None by {
                    if j < t.len() {
                        assert(args[j] == t[j]);
                    }
                }
            } else {
                assert(non_range_args(args) =~= t.push(args.last()));
                assert(t.push(args.last()) =~= args);
            }
        }
    }
}

fn first_dash(v: &Vec<char>) -> (r: Option<usize>)
    ensures
        match r {
            Some(i) => i < v@.len() && v@[i as int] == '-' && forall|k: int| 0 <= k < i ==> v@[k] != '-',
            None => forall|k: int| 0 <= k < v@.len() ==> v@[k] != '-',
        },
{
    let mut i: usize = 0;
    while i < v.len()
        invariant
            i <= v@.len(),
            forall|k: int| 0 <= k < i ==> v@[k] != '-',
        decreases v@.len() - i,
    {
        if v[i] == '-' {
            return Some(i);
        }
        i += 1;
    }
    None
}

fn range_of(arg: &String) -> (r: Option<(usize, usize)>)
    ensures
        r == arg_range(arg@),
{
    let v = chars_of(arg.as_str());
    match first_dash(&v) {
        None => {
            assert(!(exists|i: int| 0 <= i < v@.len() && v@[i] == '-'));
            None
        },
        Some(i) => {
            proof {
                let j = choose|j: int| 0 <= j < v@.len() && v@[j] == '-' && forall|k: int| 0 <= k < j ==> v@[k] != '-';
                assert(j == i as int) by {
                    if j < i {
                        assert(v@[j] != '-');
                    } else if j > i {
                        assert(v@[i as int] != '-');
                    }
                }
            }
            let mut a: Vec<char> = Vec::new();
            let mut k: usize = 0;
            while k < i
                invariant
                    k <= i < v@.len(),
                    a@ == v@.take(k as int),
                decreases i - k,
            {
                a.push(v[k]);
                assert(v@.take(k + 1) =~= v@.take(k as int).push(v@[k as int]));
                k += 1;
            }
            let mut b: Vec<char> = Vec::new();
            assert(i < v.len());
            let mut k: usize = i + 1;
            while k < v.len()
                invariant
                    i < k <= v@.len(),
                    b@ == v@.subrange(i + 1, k as int),
                decreases v@.len() - k,
            {
                b.push(v[k]);
                assert(v@.subrange(i + 1, k + 1) =~= v@.subrange(i + 1, k as int).push(v@[k as int]));
                k += 1;
            }
            assert(v@.subrange(i + 1, v@.len() as int) =~= v@.skip(i + 1));
            match (parse_usize(&a), parse_usize(&b)) {
                (Some(x), Some(y)) => Some(if x <= y { (x, y) } else { (y, x) }),
                _ => None,
            }
        },
    }
}

/// Splits off a `start-end` line-range argument: the other arguments in order,
/// and the range of the last range-like argument (as `(min, max)`).
pub fn extract_line_range(args: &[String]) -> (r: (Vec<String>, Option<(usize, usize)>))
    ensures
        r.0@.len() == non_range_args(args@.map_values(|s: String| s@)).len(),
        forall|i: int|
            0 <= i < r.0@.len() ==> #[trigger] r.0@[i]@ == non_range_args(
                args@.map_values(|s: String| s@),
            )[i],
        r.1 == last_range(args@.map_values(|s: String| s@)),
{
    let ghost views = args@.map_values(|s: String| s@);
    let mut rest: Vec<String> = Vec::new();
    let mut range: Option<(usize, usize)> = None;
    let mut i: usize = 0;
    while i < args.len()
        invariant
            i <= args@.len(),
            views == args@.map_values(|s: String| s@),
            rest@.len() == non_range_args(views.take(i as int)).len(),
            forall|k: int|
                0 <= k < rest@.len() ==> #[trigger] rest@[k]@ == non_range_args(
                    views.take(i as int),
                )[k],
            range == last_range(views.take(i as int)),
        decreases args@.len() - i,
    {
        proof {
            assert(views.take(i + 1).drop_last() =~= views.take(i as int));
            assert(views.take(i + 1).last() == args@[i as int]@);
        }
        match range_of(&args[i]) {
            Some(rg) => {
                range = Some(rg);
            },
            None => {
                rest.push(args[i].clone());
            },
        }
        i += 1;
    }
    assert(views.take(args@.len() as int) =~= views);
    (rest, range)
}


// ---------------------------------------------------------------------------
// Fixed answers
// ---------------------------------------------------------------------------

fn lit(s: &'static str) -> (r: String)
    ensures
        r@ == s@,
{
    s.to_owned()
}

/// The answer to a query that cannot be translated safely: nothing is run.
pub fn safe_unknown_query(query: &str, reason: &str) -> (r: QueryTranslatorOutput)
    ensures
        r.mode@ == "safe"@,
        r.intent@ == "unknown"@,
        r.query@ == query@,
        r.results@.len() == 1,
        r.results@[0].kind@ == "safe_reject"@,
        r.results@[0].path is None,
        r.results@[0].line is None,
        r.results@[0].title@ == reason@,
        r.results@[0].detail@ == "No se ejecutó shell externo ni comandos arbitrarios."@,
        r.suggestions@.len() == 3,
        r.suggestions@[0]@ == "ozymem q grep texto"@,
        r.suggestions@[1]@ == "ozymem q find NombreSimbolo"@,
        r.suggestions@[2]@ == "ozymem q ctx \"tarea\""@,
{
    let result = QueryTranslatorResult {
        kind: lit("safe_reject"),
        path: None,
        line: None,
        title: reason.to_owned(),
        detail: lit("No se ejecutó shell externo ni comandos arbitrarios."),
    };
    let mut results = Vec::new();
    results.push(result);
    let mut suggestions = Vec::new();
    suggestions.push(lit("ozymem q grep texto"));
    suggestions.push(lit("ozymem q find NombreSimbolo"));
    suggestions.push(lit("ozymem q ctx \"tarea\""));
    QueryTranslatorOutput {
        mode: "safe",
        intent: lit("unknown"),
        query: query.to_owned(),
        results,
        suggestions,
    }
}

// ---------------------------------------------------------------------------
// Official skills
// ---------------------------------------------------------------------------

/// The number of official skills the translator knows.
pub open spec fn skill_count() -> int {
    7
}

/// The `i`-th official skill: name, repository, category.
pub open spec fn skill(i: int) -> (Seq<char>, Seq<char>, Seq<char>) {
    if i == 0 {
        ("react"@, "facebook/react"@, "frontend"@)
    } else if i == 1 {
        ("vercel-ai"@, "vercel/ai"@, "ai-sdk"@)
    } else if i == 2 {
        ("openai-skills"@, "openai/skills"@, "openai"@)
    } else if i == 3 {
        ("supabase"@, "supabase/agent-skills"@, "database"@)
    } else if i == 4 {
        ("prisma"@, "prisma/skills"@, "database"@)
    } else if i == 5 {
        ("semgrep"@, "semgrep/skills"@, "security"@)
    } else {
        ("sentry"@, "getsentry/skills"@, "observability"@)
    }
}

fn skill_at(i: usize) -> (r: (&'static str, &'static str, &'static str))
    requires
        i < 7,
    ensures
        (r.0@, r.1@, r.2@) == skill(i as int),
{
    if i == 0 {
        ("react", "facebook/react", "frontend")
    } else if i == 1 {
        ("vercel-ai", "vercel/ai", "ai-sdk")
    } else if i == 2 {
        ("openai-skills", "openai/skills", "openai")
    } else if i == 3 {
        ("supabase", "supabase/agent-skills", "database")
    } else if i == 4 {
        ("prisma", "prisma/skills", "database")
    } else if i == 5 {
        ("semgrep", "semgrep/skills", "security")
    } else {
        ("sentry", "getsentry/skills", "observability")
    }
}

/// A skill is kept when the query is empty or occurs in its name, repository
/// or category.
pub open spec fn skill_kept(i: int, q: Seq<char>) -> bool {
    let (n, r, c) = skill(i);
    q.len() == 0 || occurs_in(n, q) || occurs_in(r, q) || occurs_in(c, q)
}

/// The indices of the kept skills among the first `k`, in order.
pub open spec fn kept_skills(k: int, q: Seq<char>) -> Seq<int>
    decreases k,
{
    if k <= 0 {
        Seq::empty()
    } else if skill_kept(k - 1, q) {
        kept_skills(k - 1, q).push(k - 1)
    } else {
        kept_skills(k - 1, q)
    }
}

/// The detail line of an official skill.
pub open spec fn skill_detail(i: int) -> Seq<char> {
    let (n, r, c) = skill(i);
    "repo="@ + r + " category="@ + c + " origin=skills.sh/official review_only=true"@
}

/// Words joined with single spaces.
pub open spec fn join_space(ws: Seq<Seq<char>>) -> Seq<char>
    decreases ws.len(),
{
    if ws.len() == 0 {
        Seq::empty()
    } else if ws.len() == 1 {
        ws[0]
    } else {
        join_space(ws.drop_last()).push(' ') + ws.last()
    }
}

/// Strings joined with single spaces.
pub fn join_with_space(args: &[String]) -> (r: String)
    ensures
        r@ == join_space(args@.map_values(|s: String| s@)),
{
    let ghost views = args@.map_values(|s: String| s@);
    let mut r = String::new();
    let mut i: usize = 0;
    while i < args.len()
        invariant
            i <= args@.len(),
            views == args@.map_values(|s: String| s@),
            r@ == join_space(views.take(i as int)),
        decreases args@.len() - i,
    {
        let ghost before = r@;
        if i > 0 {
            push_char(&mut r, ' ');
        }
        push_str(&mut r, args[i].as_str());
        proof {
            let tk = views.take(i + 1);
            assert(tk.drop_last() =~= views.take(i as int));
            if i == 0 {
                assert(r@ =~= tk[0]);
            }
        }
        i += 1;
    }
    assert(views.take(args@.len() as int) =~= views);
    r
}

/// Official skill metadata for the query words, at most `limit` entries.
pub fn query_skills(args: &[String], limit: usize) -> (r: QueryTranslatorOutput)
    ensures
        r.mode@ == "safe"@,
        r.intent@ == "skills_official_metadata"@,
        r.query@ == lower_of(join_space(args@.map_values(|s: String| s@))),
        ({
            let kept = kept_skills(skill_count(), r.query@);
            let n = if kept.len() < limit { kept.len() as int } else { limit as int };
            &&& r.results@.len() == n
            &&& forall|i: int|
                0 <= i < n ==> {
                    &&& (#[trigger] r.results@[i]).kind@ == "official_skill"@
                    &&& r.results@[i].path is None
                    &&& r.results@[i].line is None
                    &&& r.results@[i].title@ == skill(kept[i]).0
                    &&& r.results@[i].detail@ == skill_detail(kept[i])
                }
        }),
        r.suggestions@.len() == 1,
        r.suggestions@[0]@ == "ozymem q sk react"@,
{
    let joined = join_with_space(args);
    let query = to_lower(joined.as_str());
    let qv = chars_of(query.as_str());
    let mut results: Vec<QueryTranslatorResult> = Vec::new();
    let mut i: usize = 0;
    while i < 7
        invariant
            i <= 7,
            qv@ == query@,
            ({
                let kept = kept_skills(i as int, query@);
                let n = if kept.len() < limit { kept.len() as int } else { limit as int };
                &&& results@.len() == n
                &&& forall|j: int|
                    0 <= j < n ==> {
                        &&& (#[trigger] results@[j]).kind@ == "official_skill"@
                        &&& results@[j].path is None
                        &&& results@[j].line is None
                        &&& results@[j].title@ == skill(kept[j]).0
                        &&& results@[j].detail@ == skill_detail(kept[j])
                    }
            }),
        decreases 7 - i,
    {
        let (name, repo, cat) = skill_at(i);
        let keep = qv.len() == 0 || contains(&chars_of(name), &qv) || contains(&chars_of(repo), &qv)
            || contains(&chars_of(cat), &qv);
        let ghost prev = kept_skills(i as int, query@);
        if keep && results.len() < limit {
            let mut detail = String::new();
            push_str(&mut detail, "repo=");
            push_str(&mut detail, repo);
            push_str(&mut detail, " category=");
            push_str(&mut detail, cat);
            push_str(&mut detail, " origin=skills.sh/official review_only=true");
            results.push(
                QueryTranslatorResult {
                    kind: lit("official_skill"),
                    path: None,
                    line: None,
                    title: name.to_owned(),
                    detail,
                },
            );
            proof {
                assert(kept_skills(i + 1, query@) == prev.push(i as int));
            }
        }
        i += 1;
    }
    let mut suggestions = Vec::new();
    suggestions.push(lit("ozymem q sk react"));
    QueryTranslatorOutput {
        mode: "safe",
        intent: lit("skills_official_metadata"),
        query,
        results,
        suggestions,
    }
}

// ---------------------------------------------------------------------------
// Compacting text
// ---------------------------------------------------------------------------

/// The text split at every white-space character, empty pieces included.
pub open spec fn ws_pieces(s: Seq<char>) -> Seq<Seq<char>>
    decreases s.len(),
{
    if s.len() == 0 {
        seq![Seq::<char>::empty()]
    } else {
        let r = ws_pieces(s.drop_last());
        if is_ws(s.last()) {
            r.push(Seq::<char>::empty())
        } else {
            r.update(r.len() - 1, r.last().push(s.last()))
        }
    }
}

pub open spec fn keep_nonempty(ps: Seq<Seq<char>>) -> Seq<Seq<char>>
    decreases ps.len(),
{
    if ps.len() == 0 {
        Seq::empty()
    } else if ps.last().len() > 0 {
        keep_nonempty(ps.drop_last()).push(ps.last())
    } else {
        keep_nonempty(ps.drop_last())
    }
}

/// `str::split_whitespace`: the maximal runs of non-white-space characters.
pub open spec fn words(s: Seq<char>) -> Seq<Seq<char>> {
    keep_nonempty(ws_pieces(s))
}

/// The text on one line: its words joined by single spaces.
pub open spec fn one_line(s: Seq<char>) -> Seq<char> {
    join_space(words(s))
}

/// The words of `v`.
pub fn words_of(v: &Vec<char>) -> (r: Vec<Vec<char>>)
    ensures
        r@.len() == words(v@).len(),
        forall|i: int| 0 <= i < r@.len() ==> #[trigger] r@[i]@ == words(v@)[i],
{
    let mut done: Vec<Vec<char>> = Vec::new();
    let mut cur: Vec<char> = Vec::new();
    let ghost mut pieces: Seq<Seq<char>> = Seq::empty();
    let mut i: usize = 0;
    assert(v@.take(0) =~= Seq::<char>::empty());
    while i < v.len()
        invariant
            i <= v@.len(),
            ws_pieces(v@.take(i as int)) == pieces.push(cur@),
            done@.len() == keep_nonempty(pieces).len(),
            forall|k: int| 0 <= k < done@.len() ==> #[trigger] done@[k]@ == keep_nonempty(pieces)[k],
        decreases v@.len() - i,
    {
        let c = v[i];
        proof {
            assert(v@.take(i + 1).drop_last() =~= v@.take(i as int));
            assert(v@.take(i + 1).last() == c);
        }
        if char_is_ws(c) {
            proof {
                assert(pieces.push(cur@).drop_last() =~= pieces);
            }
            if cur.len() > 0 {
                let moved = cur;
                done.push(moved);
                cur = Vec::new();
            } else {
                cur = Vec::new();
            }
            proof {
                pieces = pieces.push(ws_pieces(v@.take(i as int)).last());
            }
        } else {
            proof {
                let old_cur = cur@;
                assert(pieces.push(old_cur).update(pieces.len() as int, old_cur.push(c)) =~= pieces.push(
                    old_cur.push(c),
                ));
            }
            cur.push(c);
        }
        i += 1;
    }
    proof {
        assert(v@.take(v@.len() as int) =~= v@);
        assert(pieces.push(cur@).drop_last() =~= pieces);
    }
    if cur.len() > 0 {
        done.push(cur);
    }
    done
}

/// Words joined with single spaces.
fn join_words(ws: &Vec<Vec<char>>) -> (r: String)
    ensures
        r@ == join_space(ws@.map_values(|w: Vec<char>| w@)),
{
    let ghost views = ws@.map_values(|w: Vec<char>| w@);
    let mut r = String::new();
    let mut i: usize = 0;
    while i < ws.len()
        invariant
            i <= ws@.len(),
            views == ws@.map_values(|w: Vec<char>| w@),
            r@ == join_space(views.take(i as int)),
        decreases ws@.len() - i,
    {
        if i > 0 {
            push_char(&mut r, ' ');
        }
        crate::text::push_all(&mut r, &ws[i]);
        proof {
            let tk = views.take(i + 1);
            assert(tk.drop_last() =~= views.take(i as int));
            if i == 0 {
                assert(r@ =~= tk[0]);
            }
        }
        i += 1;
    }
    assert(views.take(ws@.len() as int) =~= views);
    r
}

/// The byte count at which `compact_text` cuts a line longer than `max_chars`.
pub open spec fn cut_at(max_chars: usize) -> int {
    if max_chars > 0 {
        max_chars - 1
    } else {
        0
    }
}

/// `value` on one line; when its UTF-8 form is longer than `max_chars` bytes,
/// it is cut to `max_chars - 1` bytes and `…` is appended.
pub open spec fn compacted(value: Seq<char>, max_chars: usize) -> Seq<char> {
    let line = one_line(value);
    let bytes = encode_utf8(line);
    if bytes.len() > max_chars {
        decode_utf8(bytes.take(cut_at(max_chars))).push('…')
    } else {
        line
    }
}

/// Every character of every piece is ASCII.
pub open spec fn ascii_pieces(ps: Seq<Seq<char>>) -> bool {
    forall|i: int, j: int| 0 <= i < ps.len() && 0 <= j < ps[i].len() ==> (#[trigger] ps[i][j] as u32) < 128
}

proof fn lemma_ws_pieces_ascii(s: Seq<char>)
    requires
        is_ascii_seq(s),
    ensures
        ascii_pieces(ws_pieces(s)),
    decreases s.len(),
{
    if s.len() > 0 {
        let t = s.drop_last();
        assert(is_ascii_seq(t)) by {
            assert forall|i: int| 0 <= i < t.len() implies (t[i] as u32) < 128 by {
                assert(t[i] == s[i]);
            }
        }
        lemma_ws_pieces_ascii(t);
        let r = ws_pieces(t);
        let q = ws_pieces(s);
        assert(s[s.len() - 1] == s.last());
        lemma_ws_pieces_len(t);
        if is_ws(s.last()) {
            assert(q == r.push(Seq::<char>::empty()));
        } else {
            assert(q == r.update(r.len() - 1, r.last().push(s.last())));
        }
        assert forall|i: int, j: int| 0 <= i < q.len() && 0 <= j < q[i].len() implies (#[trigger] q[i][j] as u32)
            < 128 by {
            if is_ws(s.last()) && i == r.len() {
                assert(q[i].len() == 0);
            } else if !is_ws(s.last()) && i == r.len() - 1 {
                if j < r[i].len() {
                    assert(q[i][j] == r[i][j]);
                } else {
                    assert(q[i][j] == s.last());
                }
            } else if i < r.len() {
                assert(q[i] == r[i]);
            }
        }
    } else {
        assert(ws_pieces(s) =~= seq![Seq::<char>::empty()]);
    }
}

proof fn lemma_ws_pieces_len(s: Seq<char>)
    ensures
        ws_pieces(s).len() >= 1,
    decreases s.len(),
{
    if s.len() > 0 {
        lemma_ws_pieces_len(s.drop_last());
    }
}

proof fn lemma_keep_ascii(ps: Seq<Seq<char>>)
    requires
        ascii_pieces(ps),
    ensures
        ascii_pieces(keep_nonempty(ps)),
    decreases ps.len(),
{
    if ps.len() > 0 {
        let pl = ps.drop_last();
        assert(ascii_pieces(pl)) by {
            assert forall|i: int, j: int| 0 <= i < pl.len() && 0 <= j < pl[i].len() implies (#[trigger] pl[i][j] as u32)
                < 128 by {
                assert(pl[i] == ps[i]);
            }
        }
        lemma_keep_ascii(pl);
        let k = keep_nonempty(ps);
        let m = keep_nonempty(pl);
        assert(ps.last() == ps[ps.len() - 1]);
        assert forall|i: int, j: int| 0 <= i < k.len() && 0 <= j < k[i].len() implies (#[trigger] k[i][j] as u32)
            < 128 by {
            if ps.last().len() > 0 {
                assert(k == m.push(ps.last()));
                if i < m.len() {
                    assert(k[i] == m[i]);
                }
            }
        }
    }
}

proof fn lemma_join_space_ascii(ws: Seq<Seq<char>>)
    requires
        ascii_pieces(ws),
    ensures
        is_ascii_seq(join_space(ws)),
    decreases ws.len(),
{
    if ws.len() > 1 {
        let wl = ws.drop_last();
        assert(ascii_pieces(wl)) by {
            assert forall|i: int, j: int| 0 <= i < wl.len() && 0 <= j < wl[i].len() implies (#[trigger] wl[i][j] as u32)
                < 128 by {
                assert(wl[i] == ws[i]);
            }
        }
        lemma_join_space_ascii(wl);
        let a = join_space(wl);
        let w = ws.last();
        let r = a.push(' ') + w;
        assert(ws[ws.len() - 1] == w);
        assert forall|i: int| 0 <= i < r.len() implies (r[i] as u32) < 128 by {
            if i < a.len() {
                assert(r[i] == a[i]);
            } else if i > a.len() {
                assert(r[i] == w[i - a.len() - 1]);
            }
        }
    } else if ws.len() == 1 {
        assert forall|i: int| 0 <= i < ws[0].len() implies (ws[0][i] as u32) < 128 by {
            assert((ws[0][i] as u32) < 128);
        }
    }
}

/// An ASCII text has one byte per character, and its first `k` bytes are
/// the bytes of its first `k` characters.
proof fn lemma_ascii_take(s: Seq<char>, k: int)
    requires
        is_ascii_seq(s),
        0 <= k <= s.len(),
    ensures
        encode_utf8(s).len() == s.len(),
        encode_utf8(s).take(k) == encode_utf8(s.take(k)),
    decreases s.len(),
{
    if s.len() > 0 {
        let t = s.drop_first();
        assert(is_ascii_seq(t)) by {
            assert forall|i: int| 0 <= i < t.len() implies (t[i] as u32) < 128 by {
                assert(t[i] == s[i + 1]);
            }
        }
        assert((s[0] as u32) < 128);
        assert(vstd::utf8::encode_scalar(s[0] as u32).len() == 1);
        if k > 0 {
            lemma_ascii_take(t, k - 1);
            assert(s.take(k).drop_first() =~= t.take(k - 1));
            assert(s.take(k)[0] == s[0]);
            assert(encode_utf8(s).take(k) =~= vstd::utf8::encode_scalar(s[0] as u32) + encode_utf8(
                t,
            ).take(k - 1));
        } else {
            lemma_ascii_take(t, 0);
            assert(s.take(0) =~= Seq::<char>::empty());
            assert(encode_utf8(s).take(0) =~= Seq::<u8>::empty());
        }
    } else {
        assert(s.take(k) =~= s);
        assert(encode_utf8(s).take(k) =~= encode_utf8(s));
    }
}

/// For ASCII text, `compact_text` cuts by characters: the text on one line
/// when it has at most `max_chars` characters, else its first
/// `max_chars - 1` characters (none for 0) followed by `…`.
pub proof fn lemma_compacted_ascii(value: Seq<char>, max_chars: usize)
    requires
        is_ascii_seq(value),
    ensures
        compacted(value, max_chars) == if one_line(value).len() <= max_chars {
            one_line(value)
        } else {
            one_line(value).take(cut_at(max_chars)).push('…')
        },
{
    lemma_ws_pieces_ascii(value);
    lemma_keep_ascii(ws_pieces(value));
    lemma_join_space_ascii(words(value));
    let j = one_line(value);
    lemma_ascii_take(j, 0);
    if j.len() > max_chars {
        lemma_ascii_take(j, cut_at(max_chars));
        encode_utf8_decode_utf8(j.take(cut_at(max_chars)));
    }
}

/// ASCII text meets `compact_text`'s demand: where its one-line form is cut,
/// the cut falls on a character boundary.
pub proof fn lemma_ascii_compact_cut(value: Seq<char>, max_chars: usize)
    requires
        is_ascii_seq(value),
    ensures
        encode_utf8(one_line(value)).len() > max_chars ==> is_char_boundary(
            encode_utf8(one_line(value)),
            cut_at(max_chars),
        ),
{
    lemma_ws_pieces_ascii(value);
    lemma_keep_ascii(ws_pieces(value));
    lemma_join_space_ascii(words(value));
    let j = one_line(value);
    lemma_ascii_boundary(j, 0);
    if encode_utf8(j).len() > max_chars {
        lemma_ascii_boundary(j, cut_at(max_chars));
    }
}

/// Puts `value` on one line and cuts it to `max_chars` bytes, marking the cut
/// with `…`. The cut must fall on a character boundary.
pub fn compact_text(value: &str, max_chars: usize) -> (r: String)
    requires
        encode_utf8(one_line(value@)).len() > max_chars ==> is_char_boundary(
            encode_utf8(one_line(value@)),
            cut_at(max_chars),
        ),
    ensures
        r@ == compacted(value@, max_chars),
{
    let v = chars_of(value);
    let ws = words_of(&v);
    let line = join_words(&ws);
    proof {
        assert(ws@.map_values(|w: Vec<char>| w@) =~= words(value@));
    }
    let ls = line.as_str();
    if ls.as_bytes().len() > max_chars {
        let k: usize = if max_chars > 0 { max_chars - 1 } else { 0 };
        let (head, _tail) = ls.split_at(k);
        let mut r = head.to_owned();
        push_char(&mut r, '…');
        proof {
            encode_utf8_decode_utf8(head@);
            assert(ls@ == line@);
            assert(head.spec_bytes() == encode_utf8(head@));
            assert(ls.spec_bytes() == encode_utf8(line@));
            assert(encode_utf8(line@).subrange(0, k as int) =~= encode_utf8(line@).take(k as int));
            assert(head@ == decode_utf8(encode_utf8(line@).take(k as int)));
            assert(line@ == one_line(value@));
            assert(encode_utf8(line@).len() > max_chars);
        }
        r
    } else {
        line
    }
}

// ---------------------------------------------------------------------------
// Routing
// ---------------------------------------------------------------------------

/// Which read-only request a query is translated into.
#[derive(Debug, Clone, Copy, PartialEq, Eq, Structural)]
pub enum QueryRoute {
    /// Nothing was asked.
    Empty,
    /// Text search over the index, with the arguments.
    Grep,
    /// Symbol lookup.
    Find,
    /// Context for a task.
    Context,
    /// One file's summary.
    File,
    /// The files a file affects.
    Trace,
    /// The files a file depends on.
    Tree,
    /// Architecture overview.
    Arch,
    /// Health check.
    Doctor,
    /// Code health overview.
    Code,
    /// Official skill metadata.
    Skills,
    /// Text search for the whole query.
    RawGrep,
    /// Refused: the query could not be translated safely.
    Unknown,
}

/// A translated query: the whole query text, where it goes and the words
/// after the verb.
#[derive(Debug)]
pub struct QueryPlan {
    pub raw: String,
    pub route: QueryRoute,
    pub args: Vec<String>,
}

/// The route a (lower-cased) verb names, if it names one.
pub open spec fn verb_route(v: Seq<char>) -> Option<QueryRoute> {
    if v == "grep"@ || v == "rg"@ || v == "s"@ || v == "search"@ || v == "buscar"@ {
        Some(QueryRoute::Grep)
    } else if v == "find"@ || v == "sym"@ || v == "symbol"@ || v == "simbolo"@ || v == "símbolo"@ {
        Some(QueryRoute::Find)
    } else if v == "ctx"@ || v == "context"@ || v == "task"@ || v == "tarea"@ {
        Some(QueryRoute::Context)
    } else if v == "file"@ || v == "f"@ || v == "archivo"@ {
        Some(QueryRoute::File)
    } else if v == "trace"@ || v == "impact"@ || v == "i"@ {
        Some(QueryRoute::Trace)
    } else if v == "tree"@ || v == "deps"@ || v == "dep"@ {
        Some(QueryRoute::Tree)
    } else if v == "arch"@ || v == "architecture"@ || v == "arquitectura"@ {
        Some(QueryRoute::Arch)
    } else if v == "doctor"@ || v == "d"@ {
        Some(QueryRoute::Doctor)
    } else if v == "code"@ || v == "c"@ || v == "doctor-code"@ {
        Some(QueryRoute::Code)
    } else if v == "skills"@ || v == "skill"@ || v == "sk"@ {
        Some(QueryRoute::Skills)
    } else {
        None
    }
}

/// The whole query text: the input words joined by spaces, trimmed.
pub open spec fn query_text(input: Seq<String>) -> Seq<char> {
    trim(join_space(input.map_values(|s: String| s@)))
}

/// The verb of a query: its first token, lower-cased (empty without tokens).
pub open spec fn query_verb(raw: Seq<char>) -> Seq<char> {
    let toks = query_tokens(raw);
    if toks.len() > 0 {
        lower_of(toks[0])
    } else {
        Seq::empty()
    }
}

/// The tokens after the verb.
pub open spec fn query_args(raw: Seq<char>) -> Seq<Seq<char>> {
    let toks = query_tokens(raw);
    if toks.len() > 0 {
        toks.skip(1)
    } else {
        Seq::empty()
    }
}

/// Where a query goes: nowhere when empty; where its verb names; else a
/// search for the whole text when it has at least 3 bytes, else a refusal.
pub open spec fn query_route(raw: Seq<char>) -> QueryRoute {
    if raw.len() == 0 {
        QueryRoute::Empty
    } else {
        match verb_route(query_verb(raw)) {
            Some(r) => r,
            None => if encode_utf8(raw).len() >= 3 {
                QueryRoute::RawGrep
            } else {
                QueryRoute::Unknown
            },
        }
    }
}

fn verb_is(v: &str, w: &str) -> (r: bool)
    ensures
        r == (v@ == w@),
{
    crate::text::str_eq(v, w)
}

/// The route a lower-cased verb names.
fn route_of_verb(v: &str) -> (r: Option<QueryRoute>)
    ensures
        r == verb_route(v@),
{
    if verb_is(v, "grep") || verb_is(v, "rg") || verb_is(v, "s") || verb_is(v, "search") || verb_is(
        v,
        "buscar",
    ) {
        Some(QueryRoute::Grep)
    } else if verb_is(v, "find") || verb_is(v, "sym") || verb_is(v, "symbol") || verb_is(
        v,
        "simbolo",
    ) || verb_is(v, "símbolo") {
        Some(QueryRoute::Find)
    } else if verb_is(v, "ctx") || verb_is(v, "context") || verb_is(v, "task") || verb_is(
        v,
        "tarea",
    ) {
        Some(QueryRoute::Context)
    } else if verb_is(v, "file") || verb_is(v, "f") || verb_is(v, "archivo") {
        Some(QueryRoute::File)
    } else if verb_is(v, "trace") || verb_is(v, "impact") || verb_is(v, "i") {
        Some(QueryRoute::Trace)
    } else if verb_is(v, "tree") || verb_is(v, "deps") || verb_is(v, "dep") {
        Some(QueryRoute::Tree)
    } else if verb_is(v, "arch") || verb_is(v, "architecture") || verb_is(v, "arquitectura") {
        Some(QueryRoute::Arch)
    } else if verb_is(v, "doctor") || verb_is(v, "d") {
        Some(QueryRoute::Doctor)
    } else if verb_is(v, "code") || verb_is(v, "c") || verb_is(v, "doctor-code") {
        Some(QueryRoute::Code)
    } else if verb_is(v, "skills") || verb_is(v, "skill") || verb_is(v, "sk") {
        Some(QueryRoute::Skills)
    } else {
        None
    }
}

/// Translates the words of a query: the whole text (joined and trimmed),
/// the route its verb names (see `query_route`) and the tokens after the
/// verb.
pub fn route_query(input: &[String]) -> (r: QueryPlan)
    ensures
        r.raw@ == query_text(input@),
        r.route == query_route(query_text(input@)),
        r.route != QueryRoute::Empty ==> r.args@.map_values(|s: String| s@) == query_args(
            query_text(input@),
        ),
        r.route == QueryRoute::Empty ==> r.args@.len() == 0,
{
    let joined = join_with_space(input);
    let raw = string_of(&trim_chars(&chars_of(joined.as_str())));
    if raw.as_str().is_empty() {
        return QueryPlan { raw, route: QueryRoute::Empty, args: Vec::new() };
    }
    let tokens = split_query_tokens(raw.as_str());
    let ghost toks = query_tokens(raw@);
    let mut args: Vec<String> = Vec::new();
    let mut i: usize = 1;
    while i < tokens.len()
        invariant
            1 <= i,
            i == 1 || i <= tokens@.len(),
            toks == query_tokens(raw@),
            tokens@.len() == toks.len(),
            forall|k: int| 0 <= k < tokens@.len() ==> #[trigger] tokens@[k]@ == toks[k],
            args@.len() == i - 1,
            forall|k: int| 0 <= k < args@.len() ==> #[trigger] args@[k]@ == toks[k + 1],
        decreases tokens@.len() - i,
    {
        args.push(tokens[i].clone());
        i += 1;
    }
    proof {
        let av = args@.map_values(|s: String| s@);
        if toks.len() > 0 {
            assert(i == tokens@.len());
            assert(args@.len() == toks.skip(1).len());
            assert forall|k: int| 0 <= k < args@.len() implies #[trigger] av[k] == toks.skip(1)[k] by {
                assert(args@[k]@ == toks[k + 1]);
            }
            assert(av.len() == toks.skip(1).len());
            assert(av =~= toks.skip(1));
            assert(query_args(raw@) == toks.skip(1));
        } else {
            assert(av.len() == 0);
            assert(av =~= query_args(raw@));
        }
        assert(av =~= query_args(raw@));
    }
    let verb = if tokens.len() > 0 {
        to_lower(tokens[0].as_str())
    } else {
        String::new()
    };
    let route = match route_of_verb(verb.as_str()) {
        Some(rt) => rt,
        None => if raw.as_str().as_bytes().len() >= 3 {
            QueryRoute::RawGrep
        } else {
            QueryRoute::Unknown
        },
    };
    QueryPlan { raw, route, args }
}

/// The routing table of the query translator, for every non-empty query:
/// its verb (first token, lower-cased) sends it to a route exactly when the
/// verb is one of that route's words. `trace`, `impact` and `i` ask for the
/// files that depend on a file; `tree`, `deps` and `dep` for the files it
/// depends on; no other verb reaches either.
#[verifier::rlimit(50)]
pub proof fn lemma_verb_routing(raw: Seq<char>)
    requires
        raw.len() > 0,
    ensures
        (query_verb(raw) == "grep"@ || query_verb(raw) == "rg"@ || query_verb(raw) == "s"@ || query_verb(raw) == "search"@ || query_verb(raw) == "buscar"@) <==> query_route(raw) == QueryRoute::Grep,
        (query_verb(raw) == "find"@ || query_verb(raw) == "sym"@ || query_verb(raw) == "symbol"@ || query_verb(raw) == "simbolo"@ || query_verb(raw) == "símbolo"@) <==> query_route(raw) == QueryRoute::Find,
        (query_verb(raw) == "ctx"@ || query_verb(raw) == "context"@ || query_verb(raw) == "task"@ || query_verb(raw) == "tarea"@) <==> query_route(raw) == QueryRoute::Context,
        (query_verb(raw) == "file"@ || query_verb(raw) == "f"@ || query_verb(raw) == "archivo"@) <==> query_route(raw) == QueryRoute::File,
        (query_verb(raw) == "trace"@ || query_verb(raw) == "impact"@ || query_verb(raw) == "i"@) <==> query_route(raw) == QueryRoute::Trace,
        (query_verb(raw) == "tree"@ || query_verb(raw) == "deps"@ || query_verb(raw) == "dep"@) <==> query_route(raw) == QueryRoute::Tree,
        (query_verb(raw) == "arch"@ || query_verb(raw) == "architecture"@ || query_verb(raw) == "arquitectura"@) <==> query_route(raw) == QueryRoute::Arch,
        (query_verb(raw) == "doctor"@ || query_verb(raw) == "d"@) <==> query_route(raw) == QueryRoute::Doctor,
        (query_verb(raw) == "code"@ || query_verb(raw) == "c"@ || query_verb(raw) == "doctor-code"@) <==> query_route(raw) == QueryRoute::Code,
        (query_verb(raw) == "skills"@ || query_verb(raw) == "skill"@ || query_verb(raw) == "sk"@) <==> query_route(raw) == QueryRoute::Skills,
{
    reveal_strlit("grep");
    reveal_strlit("rg");
    reveal_strlit("s");
    reveal_strlit("search");
    reveal_strlit("buscar");
    reveal_strlit("find");
    reveal_strlit("sym");
    reveal_strlit("symbol");
    reveal_strlit("simbolo");
    reveal_strlit("símbolo");
    reveal_strlit("ctx");
    reveal_strlit("context");
    reveal_strlit("task");
    reveal_strlit("tarea");
    reveal_strlit("file");
    reveal_strlit("f");
    reveal_strlit("archivo");
    reveal_strlit("trace");
    reveal_strlit("impact");
    reveal_strlit("i");
    reveal_strlit("tree");
    reveal_strlit("deps");
    reveal_strlit("dep");
    reveal_strlit("arch");
    reveal_strlit("architecture");
    reveal_strlit("arquitectura");
    reveal_strlit("doctor");
    reveal_strlit("d");
    reveal_strlit("code");
    reveal_strlit("c");
    reveal_strlit("doctor-code");
    reveal_strlit("skills");
    reveal_strlit("skill");
    reveal_strlit("sk");
    assert(verb_route("grep"@) == Some(QueryRoute::Grep));
    assert(verb_route("rg"@) == Some(QueryRoute::Grep));
    assert(verb_route("s"@) == Some(QueryRoute::Grep));
    assert(verb_route("search"@) == Some(QueryRoute::Grep));
    assert(verb_route("buscar"@) == Some(QueryRoute::Grep));
    assert("find"@[0] != "grep"@[0]);
    assert("find"@.len() != "rg"@.len());
    assert("find"@.len() != "s"@.len());
    assert("find"@.len() != "search"@.len());
    assert("find"@.len() != "buscar"@.len());
    assert(verb_route("find"@) == Some(QueryRoute::Find));
    assert("sym"@.len() != "grep"@.len());
    assert("sym"@.len() != "rg"@.len());
    assert("sym"@.len() != "s"@.len());
    assert("sym"@.len() != "search"@.len());
    assert("sym"@.len() != "buscar"@.len());
    assert(verb_route("sym"@) == Some(QueryRoute::Find));
    assert("symbol"@.len() != "grep"@.len());
    assert("symbol"@.len() != "rg"@.len());
    assert("symbol"@.len() != "s"@.len());
    assert("symbol"@[1] != "search"@[1]);
    assert("symbol"@[0] != "buscar"@[0]);
    assert(verb_route("symbol"@) == Some(QueryRoute::Find));
    assert("simbolo"@.len() != "grep"@.len());
    assert("simbolo"@.len() != "rg"@.len());
    assert("simbolo"@.len() != "s"@.len());
    assert("simbolo"@.len() != "search"@.len());
    assert("simbolo"@.len() != "buscar"@.len());
    assert(verb_route("simbolo"@) == Some(QueryRoute::Find));
    assert("símbolo"@.len() != "grep"@.len());
    assert("símbolo"@.len() != "rg"@.len());
    assert("símbolo"@.len() != "s"@.len());
    assert("símbolo"@.len() != "search"@.len());
    assert("símbolo"@.len() != "buscar"@.len());
    assert(verb_route("símbolo"@) == Some(QueryRoute::Find));
    assert("ctx"@.len() != "grep"@.len());
    assert("ctx"@.len() != "rg"@.len());
    assert("ctx"@.len() != "s"@.len());
    assert("ctx"@.len() != "search"@.len());
    assert("ctx"@.len() != "buscar"@.len());
    assert("ctx"@.len() != "find"@.len());
    assert("ctx"@[0] != "sym"@[0]);
    assert("ctx"@.len() != "symbol"@.len());
    assert("ctx"@.len() != "simbolo"@.len());
    assert("ctx"@.len() != "símbolo"@.len());
    assert(verb_route("ctx"@) == Some(QueryRoute::Context));
    assert("context"@.len() != "grep"@.len());
    assert("context"@.len() != "rg"@.len());
    assert("context"@.len() != "s"@.len());
    assert("context"@.len() != "search"@.len());
    assert("context"@.len() != "buscar"@.len());
    assert("context"@.len() != "find"@.len());
    assert("context"@.len() != "sym"@.len());
    assert("context"@.len() != "symbol"@.len());
    assert("context"@[0] != "simbolo"@[0]);
    assert("context"@[0] != "símbolo"@[0]);
    assert(verb_route("context"@) == Some(QueryRoute::Context));
    assert("task"@[0] != "grep"@[0]);
    assert("task"@.len() != "rg"@.len());
    assert("task"@.len() != "s"@.len());
    assert("task"@.len() != "search"@.len());
    assert("task"@.len() != "buscar"@.len());
    assert("task"@[0] != "find"@[0]);
    assert("task"@.len() != "sym"@.len());
    assert("task"@.len() != "symbol"@.len());
    assert("task"@.len() != "simbolo"@.len());
    assert("task"@.len() != "símbolo"@.len());
    assert(verb_route("task"@) == Some(QueryRoute::Context));
    assert("tarea"@.len() != "grep"@.len());
    assert("tarea"@.len() != "rg"@.len());
    assert("tarea"@.len() != "s"@.len());
    assert("tarea"@.len() != "search"@.len());
    assert("tarea"@.len() != "buscar"@.len());
    assert("tarea"@.len() != "find"@.len());
    assert("tarea"@.len() != "sym"@.len());
    assert("tarea"@.len() != "symbol"@.len());
    assert("tarea"@.len() != "simbolo"@.len());
    assert("tarea"@.len() != "símbolo"@.len());
    assert(verb_route("tarea"@) == Some(QueryRoute::Context));
    assert("file"@[0] != "grep"@[0]);
    assert("file"@.len() != "rg"@.len());
    assert("file"@.len() != "s"@.len());
    assert("file"@.len() != "search"@.len());
    assert("file"@.len() != "buscar"@.len());
    assert("file"@[2] != "find"@[2]);
    assert("file"@.len() != "sym"@.len());
    assert("file"@.len() != "symbol"@.len());
    assert("file"@.len() != "simbolo"@.len());
    assert("file"@.len() != "símbolo"@.len());
    assert("file"@.len() != "ctx"@.len());
    assert("file"@.len() != "context"@.len());
    assert("file"@[0] != "task"@[0]);
    assert("file"@.len() != "tarea"@.len());
    assert(verb_route("file"@) == Some(QueryRoute::File));
    assert("f"@.len() != "grep"@.len());
    assert("f"@.len() != "rg"@.len());
    assert("f"@[0] != "s"@[0]);
    assert("f"@.len() != "search"@.len());
    assert("f"@.len() != "buscar"@.len());
    assert("f"@.len() != "find"@.len());
    assert("f"@.len() != "sym"@.len());
    assert("f"@.len() != "symbol"@.len());
    assert("f"@.len() != "simbolo"@.len());
    assert("f"@.len() != "símbolo"@.len());
    assert("f"@.len() != "ctx"@.len());
    assert("f"@.len() != "context"@.len());
    assert("f"@.len() != "task"@.len());
    assert("f"@.len() != "tarea"@.len());
    assert(verb_route("f"@) == Some(QueryRoute::File));
    assert("archivo"@.len() != "grep"@.len());
    assert("archivo"@.len() != "rg"@.len());
    assert("archivo"@.len() != "s"@.len());
    assert("archivo"@.len() != "search"@.len());
    assert("archivo"@.len() != "buscar"@.len());
    assert("archivo"@.len() != "find"@.len());
    assert("archivo"@.len() != "sym"@.len());
    assert("archivo"@.len() != "symbol"@.len());
    assert("archivo"@[0] != "simbolo"@[0]);
    assert("archivo"@[0] != "símbolo"@[0]);
    assert("archivo"@.len() != "ctx"@.len());
    assert("archivo"@[0] != "context"@[0]);
    assert("archivo"@.len() != "task"@.len());
    assert("archivo"@.len() != "tarea"@.len());
    assert(verb_route("archivo"@) == Some(QueryRoute::File));
    assert("trace"@.len() != "grep"@.len());
    assert("trace"@.len() != "rg"@.len());
    assert("trace"@.len() != "s"@.len());
    assert("trace"@.len() != "search"@.len());
    assert("trace"@.len() != "buscar"@.len());
    assert("trace"@.len() != "find"@.len());
    assert("trace"@.len() != "sym"@.len());
    assert("trace"@.len() != "symbol"@.len());
    assert("trace"@.len() != "simbolo"@.len());
    assert("trace"@.len() != "símbolo"@.len());
    assert("trace"@.len() != "ctx"@.len());
    assert("trace"@.len() != "context"@.len());
    assert("trace"@.len() != "task"@.len());
    assert("trace"@[1] != "tarea"@[1]);
    assert("trace"@.len() != "file"@.len());
    assert("trace"@.len() != "f"@.len());
    assert("trace"@.len() != "archivo"@.len());
    assert(verb_route("trace"@) == Some(QueryRoute::Trace));
    assert("impact"@.len() != "grep"@.len());
    assert("impact"@.len() != "rg"@.len());
    assert("impact"@.len() != "s"@.len());
    assert("impact"@[0] != "search"@[0]);
    assert("impact"@[0] != "buscar"@[0]);
    assert("impact"@.len() != "find"@.len());
    assert("impact"@.len() != "sym"@.len());
    assert("impact"@[0] != "symbol"@[0]);
    assert("impact"@.len() != "simbolo"@.len());
    assert("impact"@.len() != "símbolo"@.len());
    assert("impact"@.len() != "ctx"@.len());
    assert("impact"@.len() != "context"@.len());
    assert("impact"@.len() != "task"@.len());
    assert("impact"@.len() != "tarea"@.len());
    assert("impact"@.len() != "file"@.len());
    assert("impact"@.len() != "f"@.len());
    assert("impact"@.len() != "archivo"@.len());
    assert(verb_route("impact"@) == Some(QueryRoute::Trace));
    assert("i"@.len() != "grep"@.len());
    assert("i"@.len() != "rg"@.len());
    assert("i"@[0] != "s"@[0]);
    assert("i"@.len() != "search"@.len());
    assert("i"@.len() != "buscar"@.len());
    assert("i"@.len() != "find"@.len());
    assert("i"@.len() != "sym"@.len());
    assert("i"@.len() != "symbol"@.len());
    assert("i"@.len() != "simbolo"@.len());
    assert("i"@.len() != "símbolo"@.len());
    assert("i"@.len() != "ctx"@.len());
    assert("i"@.len() != "context"@.len());
    assert("i"@.len() != "task"@.len());
    assert("i"@.len() != "tarea"@.len());
    assert("i"@.len() != "file"@.len());
    assert("i"@[0] != "f"@[0]);
    assert("i"@.len() != "archivo"@.len());
    assert(verb_route("i"@) == Some(QueryRoute::Trace));
    assert("tree"@[0] != "grep"@[0]);
    assert("tree"@.len() != "rg"@.len());
    assert("tree"@.len() != "s"@.len());
    assert("tree"@.len() != "search"@.len());
    assert("tree"@.len() != "buscar"@.len());
    assert("tree"@[0] != "find"@[0]);
    assert("tree"@.len() != "sym"@.len());
    assert("tree"@.len() != "symbol"@.len());
    assert("tree"@.len() != "simbolo"@.len());
    assert("tree"@.len() != "símbolo"@.len());
    assert("tree"@.len() != "ctx"@.len());
    assert("tree"@.len() != "context"@.len());
    assert("tree"@[1] != "task"@[1]);
    assert("tree"@.len() != "tarea"@.len());
    assert("tree"@[0] != "file"@[0]);
    assert("tree"@.len() != "f"@.len());
    assert("tree"@.len() != "archivo"@.len());
    assert("tree"@.len() != "trace"@.len());
    assert("tree"@.len() != "impact"@.len());
    assert("tree"@.len() != "i"@.len());
    assert(verb_route("tree"@) == Some(QueryRoute::Tree));
    assert("deps"@[0] != "grep"@[0]);
    assert("deps"@.len() != "rg"@.len());
    assert("deps"@.len() != "s"@.len());
    assert("deps"@.len() != "search"@.len());
    assert("deps"@.len() != "buscar"@.len());
    assert("deps"@[0] != "find"@[0]);
    assert("deps"@.len() != "sym"@.len());
    assert("deps"@.len() != "symbol"@.len());
    assert("deps"@.len() != "simbolo"@.len());
    assert("deps"@.len() != "símbolo"@.len());
    assert("deps"@.len() != "ctx"@.len());
    assert("deps"@.len() != "context"@.len());
    assert("deps"@[0] != "task"@[0]);
    assert("deps"@.len() != "tarea"@.len());
    assert("deps"@[0] != "file"@[0]);
    assert("deps"@.len() != "f"@.len());
    assert("deps"@.len() != "archivo"@.len());
    assert("deps"@.len() != "trace"@.len());
    assert("deps"@.len() != "impact"@.len());
    assert("deps"@.len() != "i"@.len());
    assert(verb_route("deps"@) == Some(QueryRoute::Tree));
    assert("dep"@.len() != "grep"@.len());
    assert("dep"@.len() != "rg"@.len());
    assert("dep"@.len() != "s"@.len());
    assert("dep"@.len() != "search"@.len());
    assert("dep"@.len() != "buscar"@.len());
    assert("dep"@.len() != "find"@.len());
    assert("dep"@[0] != "sym"@[0]);
    assert("dep"@.len() != "symbol"@.len());
    assert("dep"@.len() != "simbolo"@.len());
    assert("dep"@.len() != "símbolo"@.len());
    assert("dep"@[0] != "ctx"@[0]);
    assert("dep"@.len() != "context"@.len());
    assert("dep"@.len() != "task"@.len());
    assert("dep"@.len() != "tarea"@.len());
    assert("dep"@.len() != "file"@.len());
    assert("dep"@.len() != "f"@.len());
    assert("dep"@.len() != "archivo"@.len());
    assert("dep"@.len() != "trace"@.len());
    assert("dep"@.len() != "impact"@.len());
    assert("dep"@.len() != "i"@.len());
    assert(verb_route("dep"@) == Some(QueryRoute::Tree));
    assert("arch"@[0] != "grep"@[0]);
    assert("arch"@.len() != "rg"@.len());
    assert("arch"@.len() != "s"@.len());
    assert("arch"@.len() != "search"@.len());
    assert("arch"@.len() != "buscar"@.len());
    assert("arch"@[0] != "find"@[0]);
    assert("arch"@.len() != "sym"@.len());
    assert("arch"@.len() != "symbol"@.len());
    assert("arch"@.len() != "simbolo"@.len());
    assert("arch"@.len() != "símbolo"@.len());
    assert("arch"@.len() != "ctx"@.len());
    assert("arch"@.len() != "context"@.len());
    assert("arch"@[0] != "task"@[0]);
    assert("arch"@.len() != "tarea"@.len());
    assert("arch"@[0] != "file"@[0]);
    assert("arch"@.len() != "f"@.len());
    assert("arch"@.len() != "archivo"@.len());
    assert("arch"@.len() != "trace"@.len());
    assert("arch"@.len() != "impact"@.len());
    assert("arch"@.len() != "i"@.len());
    assert("arch"@[0] != "tree"@[0]);
    assert("arch"@[0] != "deps"@[0]);
    assert("arch"@.len() != "dep"@.len());
    assert(verb_route("arch"@) == Some(QueryRoute::Arch));
    assert("architecture"@.len() != "grep"@.len());
    assert("architecture"@.len() != "rg"@.len());
    assert("architecture"@.len() != "s"@.len());
    assert("architecture"@.len() != "search"@.len());
    assert("architecture"@.len() != "buscar"@.len());
    assert("architecture"@.len() != "find"@.len());
    assert("architecture"@.len() != "sym"@.len());
    assert("architecture"@.len() != "symbol"@.len());
    assert("architecture"@.len() != "simbolo"@.len());
    assert("architecture"@.len() != "símbolo"@.len());
    assert("architecture"@.len() != "ctx"@.len());
    assert("architecture"@.len() != "context"@.len());
    assert("architecture"@.len() != "task"@.len());
    assert("architecture"@.len() != "tarea"@.len());
    assert("architecture"@.len() != "file"@.len());
    assert("architecture"@.len() != "f"@.len());
    assert("architecture"@.len() != "archivo"@.len());
    assert("architecture"@.len() != "trace"@.len());
    assert("architecture"@.len() != "impact"@.len());
    assert("architecture"@.len() != "i"@.len());
    assert("architecture"@.len() != "tree"@.len());
    assert("architecture"@.len() != "deps"@.len());
    assert("architecture"@.len() != "dep"@.len());
    assert(verb_route("architecture"@) == Some(QueryRoute::Arch));
    assert("arquitectura"@.len() != "grep"@.len());
    assert("arquitectura"@.len() != "rg"@.len());
    assert("arquitectura"@.len() != "s"@.len());
    assert("arquitectura"@.len() != "search"@.len());
    assert("arquitectura"@.len() != "buscar"@.len());
    assert("arquitectura"@.len() != "find"@.len());
    assert("arquitectura"@.len() != "sym"@.len());
    assert("arquitectura"@.len() != "symbol"@.len());
    assert("arquitectura"@.len() != "simbolo"@.len());
    assert("arquitectura"@.len() != "símbolo"@.len());
    assert("arquitectura"@.len() != "ctx"@.len());
    assert("arquitectura"@.len() != "context"@.len());
    assert("arquitectura"@.len() != "task"@.len());
    assert("arquitectura"@.len() != "tarea"@.len());
    assert("arquitectura"@.len() != "file"@.len());
    assert("arquitectura"@.len() != "f"@.len());
    assert("arquitectura"@.len() != "archivo"@.len());
    assert("arquitectura"@.len() != "trace"@.len());
    assert("arquitectura"@.len() != "impact"@.len());
    assert("arquitectura"@.len() != "i"@.len());
    assert("arquitectura"@.len() != "tree"@.len());
    assert("arquitectura"@.len() != "deps"@.len());
    assert("arquitectura"@.len() != "dep"@.len());
    assert(verb_route("arquitectura"@) == Some(QueryRoute::Arch));
    assert("doctor"@.len() != "grep"@.len());
    assert("doctor"@.len() != "rg"@.len());
    assert("doctor"@.len() != "s"@.len());
    assert("doctor"@[0] != "search"@[0]);
    assert("doctor"@[0] != "buscar"@[0]);
    assert("doctor"@.len() != "find"@.len());
    assert("doctor"@.len() != "sym"@.len());
    assert("doctor"@[0] != "symbol"@[0]);
    assert("doctor"@.len() != "simbolo"@.len());
    assert("doctor"@.len() != "símbolo"@.len());
    assert("doctor"@.len() != "ctx"@.len());
    assert("doctor"@.len() != "context"@.len());
    assert("doctor"@.len() != "task"@.len());
    assert("doctor"@.len() != "tarea"@.len());
    assert("doctor"@.len() != "file"@.len());
    assert("doctor"@.len() != "f"@.len());
    assert("doctor"@.len() != "archivo"@.len());
    assert("doctor"@.len() != "trace"@.len());
    assert("doctor"@[0] != "impact"@[0]);
    assert("doctor"@.len() != "i"@.len());
    assert("doctor"@.len() != "tree"@.len());
    assert("doctor"@.len() != "deps"@.len());
    assert("doctor"@.len() != "dep"@.len());
    assert("doctor"@.len() != "arch"@.len());
    assert("doctor"@.len() != "architecture"@.len());
    assert("doctor"@.len() != "arquitectura"@.len());
    assert(verb_route("doctor"@) == Some(QueryRoute::Doctor));
    assert("d"@.len() != "grep"@.len());
    assert("d"@.len() != "rg"@.len());
    assert("d"@[0] != "s"@[0]);
    assert("d"@.len() != "search"@.len());
    assert("d"@.len() != "buscar"@.len());
    assert("d"@.len() != "find"@.len());
    assert("d"@.len() != "sym"@.len());
    assert("d"@.len() != "symbol"@.len());
    assert("d"@.len() != "simbolo"@.len());
    assert("d"@.len() != "símbolo"@.len());
    assert("d"@.len() != "ctx"@.len());
    assert("d"@.len() != "context"@.len());
    assert("d"@.len() != "task"@.len());
    assert("d"@.len() != "tarea"@.len());
    assert("d"@.len() != "file"@.len());
    assert("d"@[0] != "f"@[0]);
    assert("d"@.len() != "archivo"@.len());
    assert("d"@.len() != "trace"@.len());
    assert("d"@.len() != "impact"@.len());
    assert("d"@[0] != "i"@[0]);
    assert("d"@.len() != "tree"@.len());
    assert("d"@.len() != "deps"@.len());
    assert("d"@.len() != "dep"@.len());
    assert("d"@.len() != "arch"@.len());
    assert("d"@.len() != "architecture"@.len());
    assert("d"@.len() != "arquitectura"@.len());
    assert(verb_route("d"@) == Some(QueryRoute::Doctor));
    assert("code"@[0] != "grep"@[0]);
    assert("code"@.len() != "rg"@.len());
    assert("code"@.len() != "s"@.len());
    assert("code"@.len() != "search"@.len());
    assert("code"@.len() != "buscar"@.len());
    assert("code"@[0] != "find"@[0]);
    assert("code"@.len() != "sym"@.len());
    assert("code"@.len() != "symbol"@.len());
    assert("code"@.len() != "simbolo"@.len());
    assert("code"@.len() != "símbolo"@.len());
    assert("code"@.len() != "ctx"@.len());
    assert("code"@.len() != "context"@.len());
    assert("code"@[0] != "task"@[0]);
    assert("code"@.len() != "tarea"@.len());
    assert("code"@[0] != "file"@[0]);
    assert("code"@.len() != "f"@.len());
    assert("code"@.len() != "archivo"@.len());
    assert("code"@.len() != "trace"@.len());
    assert("code"@.len() != "impact"@.len());
    assert("code"@.len() != "i"@.len());
    assert("code"@[0] != "tree"@[0]);
    assert("code"@[0] != "deps"@[0]);
    assert("code"@.len() != "dep"@.len());
    assert("code"@[0] != "arch"@[0]);
    assert("code"@.len() != "architecture"@.len());
    assert("code"@.len() != "arquitectura"@.len());
    assert("code"@.len() != "doctor"@.len());
    assert("code"@.len() != "d"@.len());
    assert(verb_route("code"@) == Some(QueryRoute::Code));
    assert("c"@.len() != "grep"@.len());
    assert("c"@.len() != "rg"@.len());
    assert("c"@[0] != "s"@[0]);
    assert("c"@.len() != "search"@.len());
    assert("c"@.len() != "buscar"@.len());
    assert("c"@.len() != "find"@.len());
    assert("c"@.len() != "sym"@.len());
    assert("c"@.len() != "symbol"@.len());
    assert("c"@.len() != "simbolo"@.len());
    assert("c"@.len() != "símbolo"@.len());
    assert("c"@.len() != "ctx"@.len());
    assert("c"@.len() != "context"@.len());
    assert("c"@.len() != "task"@.len());
    assert("c"@.len() != "tarea"@.len());
    assert("c"@.len() != "file"@.len());
    assert("c"@[0] != "f"@[0]);
    assert("c"@.len() != "archivo"@.len());
    assert("c"@.len() != "trace"@.len());
    assert("c"@.len() != "impact"@.len());
    assert("c"@[0] != "i"@[0]);
    assert("c"@.len() != "tree"@.len());
    assert("c"@.len() != "deps"@.len());
    assert("c"@.len() != "dep"@.len());
    assert("c"@.len() != "arch"@.len());
    assert("c"@.len() != "architecture"@.len());
    assert("c"@.len() != "arquitectura"@.len());
    assert("c"@.len() != "doctor"@.len());
    assert("c"@[0] != "d"@[0]);
    assert(verb_route("c"@) == Some(QueryRoute::Code));
    assert("doctor-code"@.len() != "grep"@.len());
    assert("doctor-code"@.len() != "rg"@.len());
    assert("doctor-code"@.len() != "s"@.len());
    assert("doctor-code"@.len() != "search"@.len());
    assert("doctor-code"@.len() != "buscar"@.len());
    assert("doctor-code"@.len() != "find"@.len());
    assert("doctor-code"@.len() != "sym"@.len());
    assert("doctor-code"@.len() != "symbol"@.len());
    assert("doctor-code"@.len() != "simbolo"@.len());
    assert("doctor-code"@.len() != "símbolo"@.len());
    assert("doctor-code"@.len() != "ctx"@.len());
    assert("doctor-code"@.len() != "context"@.len());
    assert("doctor-code"@.len() != "task"@.len());
    assert("doctor-code"@.len() != "tarea"@.len());
    assert("doctor-code"@.len() != "file"@.len());
    assert("doctor-code"@.len() != "f"@.len());
    assert("doctor-code"@.len() != "archivo"@.len());
    assert("doctor-code"@.len() != "trace"@.len());
    assert("doctor-code"@.len() != "impact"@.len());
    assert("doctor-code"@.len() != "i"@.len());
    assert("doctor-code"@.len() != "tree"@.len());
    assert("doctor-code"@.len() != "deps"@.len());
    assert("doctor-code"@.len() != "dep"@.len());
    assert("doctor-code"@.len() != "arch"@.len());
    assert("doctor-code"@.len() != "architecture"@.len());
    assert("doctor-code"@.len() != "arquitectura"@.len());
    assert("doctor-code"@.len() != "doctor"@.len());
    assert("doctor-code"@.len() != "d"@.len());
    assert(verb_route("doctor-code"@) == Some(QueryRoute::Code));
    assert("skills"@.len() != "grep"@.len());
    assert("skills"@.len() != "rg"@.len());
    assert("skills"@.len() != "s"@.len());
    assert("skills"@[1] != "search"@[1]);
    assert("skills"@[0] != "buscar"@[0]);
    assert("skills"@.len() != "find"@.len());
    assert("skills"@.len() != "sym"@.len());
    assert("skills"@[1] != "symbol"@[1]);
    assert("skills"@.len() != "simbolo"@.len());
    assert("skills"@.len() != "símbolo"@.len());
    assert("skills"@.len() != "ctx"@.len());
    assert("skills"@.len() != "context"@.len());
    assert("skills"@.len() != "task"@.len());
    assert("skills"@.len() != "tarea"@.len());
    assert("skills"@.len() != "file"@.len());
    assert("skills"@.len() != "f"@.len());
    assert("skills"@.len() != "archivo"@.len());
    assert("skills"@.len() != "trace"@.len());
    assert("skills"@[0] != "impact"@[0]);
    assert("skills"@.len() != "i"@.len());
    assert("skills"@.len() != "tree"@.len());
    assert("skills"@.len() != "deps"@.len());
    assert("skills"@.len() != "dep"@.len());
    assert("skills"@.len() != "arch"@.len());
    assert("skills"@.len() != "architecture"@.len());
    assert("skills"@.len() != "arquitectura"@.len());
    assert("skills"@[0] != "doctor"@[0]);
    assert("skills"@.len() != "d"@.len());
    assert("skills"@.len() != "code"@.len());
    assert("skills"@.len() != "c"@.len());
    assert("skills"@.len() != "doctor-code"@.len());
    assert(verb_route("skills"@) == Some(QueryRoute::Skills));
    assert("skill"@.len() != "grep"@.len());
    assert("skill"@.len() != "rg"@.len());
    assert("skill"@.len() != "s"@.len());
    assert("skill"@.len() != "search"@.len());
    assert("skill"@.len() != "buscar"@.len());
    assert("skill"@.len() != "find"@.len());
    assert("skill"@.len() != "sym"@.len());
    assert("skill"@.len() != "symbol"@.len());
    assert("skill"@.len() != "simbolo"@.len());
    assert("skill"@.len() != "símbolo"@.len());
    assert("skill"@.len() != "ctx"@.len());
    assert("skill"@.len() != "context"@.len());
    assert("skill"@.len() != "task"@.len());
    assert("skill"@[0] != "tarea"@[0]);
    assert("skill"@.len() != "file"@.len());
    assert("skill"@.len() != "f"@.len());
    assert("skill"@.len() != "archivo"@.len());
    assert("skill"@[0] != "trace"@[0]);
    assert("skill"@.len() != "impact"@.len());
    assert("skill"@.len() != "i"@.len());
    assert("skill"@.len() != "tree"@.len());
    assert("skill"@.len() != "deps"@.len());
    assert("skill"@.len() != "dep"@.len());
    assert("skill"@.len() != "arch"@.len());
    assert("skill"@.len() != "architecture"@.len());
    assert("skill"@.len() != "arquitectura"@.len());
    assert("skill"@.len() != "doctor"@.len());
    assert("skill"@.len() != "d"@.len());
    assert("skill"@.len() != "code"@.len());
    assert("skill"@.len() != "c"@.len());
    assert("skill"@.len() != "doctor-code"@.len());
    assert(verb_route("skill"@) == Some(QueryRoute::Skills));
    assert("sk"@.len() != "grep"@.len());
    assert("sk"@[0] != "rg"@[0]);
    assert("sk"@.len() != "s"@.len());
    assert("sk"@.len() != "search"@.len());
    assert("sk"@.len() != "buscar"@.len());
    assert("sk"@.len() != "find"@.len());
    assert("sk"@.len() != "sym"@.len());
    assert("sk"@.len() != "symbol"@.len());
    assert("sk"@.len() != "simbolo"@.len());
    assert("sk"@.len() != "símbolo"@.len());
    assert("sk"@.len() != "ctx"@.len());
    assert("sk"@.len() != "context"@.len());
    assert("sk"@.len() != "task"@.len());
    assert("sk"@.len() != "tarea"@.len());
    assert("sk"@.len() != "file"@.len());
    assert("sk"@.len() != "f"@.len());
    assert("sk"@.len() != "archivo"@.len());
    assert("sk"@.len() != "trace"@.len());
    assert("sk"@.len() != "impact"@.len());
    assert("sk"@.len() != "i"@.len());
    assert("sk"@.len() != "tree"@.len());
    assert("sk"@.len() != "deps"@.len());
    assert("sk"@.len() != "dep"@.len());
    assert("sk"@.len() != "arch"@.len());
    assert("sk"@.len() != "architecture"@.len());
    assert("sk"@.len() != "arquitectura"@.len());
    assert("sk"@.len() != "doctor"@.len());
    assert("sk"@.len() != "d"@.len());
    assert("sk"@.len() != "code"@.len());
    assert("sk"@.len() != "c"@.len());
    assert("sk"@.len() != "doctor-code"@.len());
    assert(verb_route("sk"@) == Some(QueryRoute::Skills));
}

} // verus!

