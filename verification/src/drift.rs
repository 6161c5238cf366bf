//! Convention drift: added diff lines that conflict with a recorded project
//! convention.

use vstd::prelude::*;
use vstd::utf8::encode_utf8;
use crate::digest::{decimal_of_i64, signed_decimal};
use crate::memory::{extract_prohibited_terms, prohibited_terms, term_pieces, term_pieces_of};
use crate::paths::{normalize_path, normalized};
use crate::text::{
    byte_count, chars_of, contains, lines_of, lower_chars, lower_of, occurs_in, push_all, push_str,
    starts_with, string_of, text_lines,
};

verus! {

broadcast use vstd::string::group_string_axioms;

/// A recorded convention (or module rule) of a project.
#[derive(Debug, Clone)]
pub struct Convention {
    pub id: i64,
    pub file_path: String,
    pub symbol_name: String,
    pub error_context: String,
    pub solution: String,
}

/// A diff line that may break a convention.
#[derive(Debug, Clone)]
pub struct DriftAlert {
    pub file_path: String,
    pub convention_id: i64,
    pub rule_snippet: String,
    pub diff_snippet: String,
    pub severity: String,
    pub description: String,
}

/// The rule text of a convention: its context and solution, lower-cased.
pub open spec fn rule_text_of(c: Convention) -> Seq<char> {
    lower_of(c.error_context@ + seq![' '] + c.solution@)
}

/// A changed file and a convention's file are the same, or one path
/// contains the other (both in stored form); a convention without a file
/// concerns every file.
pub open spec fn same_file(changed: Seq<char>, path: Seq<char>) -> bool {
    let n = normalized(changed);
    let q = normalized(path);
    n == q || q.len() == 0 || occurs_in(n, q) || occurs_in(q, n)
}

/// A convention concerns the change: no changed files were given, or one of
/// them is its file.
pub open spec fn concerns(changed: Seq<Seq<char>>, path: Seq<char>) -> bool {
    changed.len() == 0 || exists|i: int| 0 <= i < changed.len() && same_file(#[trigger] changed[i], path)
}

/// A line that a diff adds (not a `+++` file header).
pub open spec fn is_added_line(l: Seq<char>) -> bool {
    l.len() > 0 && l[0] == '+' && !(l.len() >= 3 && l.take(3) == "+++"@)
}

/// A rule worded as a rule: it says never, do not, prohibited, deprecated,
/// siempre, always, evitar or forbidden.
pub open spec fn enforces(rule: Seq<char>) -> bool {
    ||| occurs_in(rule, "never"@)
    ||| occurs_in(rule, "do not"@)
    ||| occurs_in(rule, "prohibited"@)
    ||| occurs_in(rule, "deprecated"@)
    ||| occurs_in(rule, "siempre"@)
    ||| occurs_in(rule, "always"@)
    ||| occurs_in(rule, "evitar"@)
    ||| occurs_in(rule, "forbidden"@)
}

/// Words of a rule that do not count as keywords.
pub open spec fn is_common_word(w: Seq<char>) -> bool {
    ||| w == "never"@
    ||| w == "always"@
    ||| w == "with"@
    ||| w == "from"@
    ||| w == "that"@
    ||| w == "this"@
    ||| w == "have"@
    ||| w == "para"@
    ||| w == "siempre"@
    ||| w == "rule"@
    ||| w == "standard"@
    ||| w == "cents"@
    ||| w == "price"@
    ||| w == "prices"@
}

/// A word of the rule that the lower-cased line mentions: at least three
/// bytes, not a common word.
pub open spec fn keyword_in(w: Seq<char>, line_lower: Seq<char>) -> bool {
    encode_utf8(w).len() >= 3 && !is_common_word(w) && occurs_in(line_lower, w)
}

/// The line conflicts with the rule: it mentions a prohibited term of the
/// rule; or, when the rule names none, the rule is worded as a rule and the
/// line mentions one of its keywords.
pub open spec fn violates(rule: Seq<char>, terms: Seq<Seq<char>>, line: Seq<char>) -> bool {
    let ll = lower_of(line);
    if terms.len() > 0 {
        exists|i: int| 0 <= i < terms.len() && occurs_in(ll, #[trigger] terms[i])
    } else {
        enforces(rule) && exists|i: int|
            0 <= i < term_pieces(rule).len() && keyword_in(#[trigger] term_pieces(rule)[i], ll)
    }
}

/// The first added line of `ls` that conflicts with the rule.
pub open spec fn first_violation(ls: Seq<Seq<char>>, rule: Seq<char>, terms: Seq<Seq<char>>) -> Option<
    Seq<char>,
>
    decreases ls.len(),
{
    if ls.len() == 0 {
        None
    } else if is_added_line(ls[0]) && violates(rule, terms, ls[0]) {
        Some(ls[0])
    } else {
        first_violation(ls.drop_first(), rule, terms)
    }
}

/// The conflicting line of a convention, if it concerns the change and the
/// diff has one.
#[verifier::opaque]
pub open spec fn convention_drift(c: Convention, changed: Seq<Seq<char>>, diff: Seq<char>) -> Option<
    Seq<char>,
> {
    let rule = rule_text_of(c);
    if concerns(changed, c.file_path@) && diff.len() > 0 {
        first_violation(text_lines(diff), rule, prohibited_terms(rule))
    } else {
        None
    }
}

/// The conventions (by position) that the diff may break, in order, with
/// the first conflicting line of each.
pub open spec fn drifts(convs: Seq<Convention>, changed: Seq<Seq<char>>, diff: Seq<char>) -> Seq<
    (int, Seq<char>),
>
    decreases convs.len(),
{
    if convs.len() == 0 {
        Seq::empty()
    } else {
        let rest = drifts(convs.drop_last(), changed, diff);
        match convention_drift(convs.last(), changed, diff) {
            Some(l) => rest.push((convs.len() - 1, l)),
            None => rest,
        }
    }
}

/// The alert raised for convention `c` on diff line `line`.
#[verifier::opaque]
pub open spec fn alert_for(a: DriftAlert, c: Convention, line: Seq<char>) -> bool {
    &&& a.file_path@ == c.file_path@
    &&& a.convention_id == c.id
    &&& a.rule_snippet@ == c.solution@
    &&& a.diff_snippet@ == line
    &&& a.severity@ == "warning"@
    &&& a.description@ == "Diff line potentially conflicts with convention #"@ + signed_decimal(
        c.id as int,
    ) + ": "@ + c.solution@
}

/// Whether the convention's file is among the changed files.
fn concerns_exec(changed: &[String], path: &str) -> (r: bool)
    ensures
        r == concerns(changed@.map_values(|s: String| s@), path@),
{
    let ghost cv = changed@.map_values(|s: String| s@);
    if changed.len() == 0 {
        return true;
    }
    let q = chars_of(normalize_path(path).as_str());
    let mut i: usize = 0;
    while i < changed.len()
        invariant
            i <= changed@.len(),
            cv == changed@.map_values(|s: String| s@),
            q@ == normalized(path@),
            forall|k: int| 0 <= k < i ==> !same_file(#[trigger] cv[k], path@),
        decreases changed@.len() - i,
    {
        let n = chars_of(normalize_path(changed[i].as_str()).as_str());
        if crate::paths::chars_eq(&n, &q) || q.len() == 0 || contains(&n, &q) || contains(&q, &n) {
            assert(same_file(cv[i as int], path@));
            return true;
        }
        i += 1;
    }
    false
}

fn enforces_exec(rule: &Vec<char>) -> (r: bool)
    ensures
        r == enforces(rule@),
{
    contains(rule, &chars_of("never")) || contains(rule, &chars_of("do not")) || contains(
        rule,
        &chars_of("prohibited"),
    ) || contains(rule, &chars_of("deprecated")) || contains(rule, &chars_of("siempre"))
        || contains(rule, &chars_of("always")) || contains(rule, &chars_of("evitar")) || contains(
        rule,
        &chars_of("forbidden"),
    )
}

fn is_word_of(w: &Vec<char>, lit: &str) -> (r: bool)
    ensures
        r == (w@ == lit@),
{
    crate::paths::chars_eq(w, &chars_of(lit))
}

fn common_word(w: &Vec<char>) -> (r: bool)
    ensures
        r == is_common_word(w@),
{
    is_word_of(w, "never") || is_word_of(w, "always") || is_word_of(w, "with") || is_word_of(
        w,
        "from",
    ) || is_word_of(w, "that") || is_word_of(w, "this") || is_word_of(w, "have") || is_word_of(
        w,
        "para",
    ) || is_word_of(w, "siempre") || is_word_of(w, "rule") || is_word_of(w, "standard")
        || is_word_of(w, "cents") || is_word_of(w, "price") || is_word_of(w, "prices")
}

/// Whether the line conflicts with the rule (see `violates`).
fn violates_exec(
    rule: &Vec<char>,
    pieces: &Vec<Vec<char>>,
    terms: &Vec<String>,
    line: &Vec<char>,
) -> (r: bool)
    requires
        pieces@.len() == term_pieces(rule@).len(),
        forall|i: int| 0 <= i < pieces@.len() ==> #[trigger] pieces@[i]@ == term_pieces(rule@)[i],
    ensures
        r == violates(rule@, terms@.map_values(|s: String| s@), line@),
{
    let ll = lower_chars(line);
    let ghost tv = terms@.map_values(|s: String| s@);
    if terms.len() > 0 {
        let mut i: usize = 0;
        while i < terms.len()
            invariant
                i <= terms@.len(),
                tv == terms@.map_values(|s: String| s@),
                ll@ == lower_of(line@),
                forall|k: int| 0 <= k < i ==> !occurs_in(ll@, #[trigger] tv[k]),
            decreases terms@.len() - i,
        {
            if contains(&ll, &chars_of(terms[i].as_str())) {
                assert(occurs_in(ll@, tv[i as int]));
                return true;
            }
            i += 1;
        }
        return false;
    }
    if !enforces_exec(rule) {
        return false;
    }
    let mut i: usize = 0;
    while i < pieces.len()
        invariant
            i <= pieces@.len(),
            enforces(rule@),
            terms@.len() == 0,
            pieces@.len() == term_pieces(rule@).len(),
            forall|k: int| 0 <= k < pieces@.len() ==> #[trigger] pieces@[k]@ == term_pieces(rule@)[k],
            ll@ == lower_of(line@),
            forall|k: int| 0 <= k < i ==> !keyword_in(#[trigger] term_pieces(rule@)[k], ll@),
        decreases pieces@.len() - i,
    {
        let w = &pieces[i];
        if byte_count(w) >= 3 && !common_word(w) && contains(&ll, w) {
            assert(keyword_in(term_pieces(rule@)[i as int], ll@));
            return true;
        }
        i += 1;
    }
    false
}

/// Whether `l` is a line that a diff adds.
fn added_line(l: &Vec<char>) -> (r: bool)
    ensures
        r == is_added_line(l@),
{
    if l.len() == 0 || l[0] != '+' {
        return false;
    }
    let plus3 = chars_of("+++");
    proof {
        reveal_strlit("+++");
    }
    if l.len() >= 3 {
        let s = starts_with(l, &plus3);
        assert(s == (l@.take(3) == "+++"@));
        !s
    } else {
        true
    }
}

/// The first line of `lines[from..]` that a diff adds and that conflicts
/// with the rule.
fn find_violation(
    lines: &Vec<Vec<char>>,
    rule: &Vec<char>,
    pieces: &Vec<Vec<char>>,
    terms: &Vec<String>,
) -> (r: Option<usize>)
    requires
        pieces@.len() == term_pieces(rule@).len(),
        forall|i: int| 0 <= i < pieces@.len() ==> #[trigger] pieces@[i]@ == term_pieces(rule@)[i],
    ensures
        match r {
            Some(i) => i < lines@.len() && first_violation(
                lines@.map_values(|v: Vec<char>| v@),
                rule@,
                terms@.map_values(|s: String| s@),
            ) == Some(lines@[i as int]@),
            None => first_violation(
                lines@.map_values(|v: Vec<char>| v@),
                rule@,
                terms@.map_values(|s: String| s@),
            ) is None,
        },
{
    let ghost lv = lines@.map_values(|v: Vec<char>| v@);
    let ghost tv = terms@.map_values(|s: String| s@);
    let mut i: usize = 0;
    assert(lv.skip(0) =~= lv);
    while i < lines.len()
        invariant
            i <= lines@.len(),
            lv == lines@.map_values(|v: Vec<char>| v@),
            tv == terms@.map_values(|s: String| s@),
            pieces@.len() == term_pieces(rule@).len(),
            forall|k: int| 0 <= k < pieces@.len() ==> #[trigger] pieces@[k]@ == term_pieces(rule@)[k],
            first_violation(lv, rule@, tv) == first_violation(lv.skip(i as int), rule@, tv),
        decreases lines@.len() - i,
    {
        assert(lv.skip(i as int)[0] == lines@[i as int]@);
        assert(lv.skip(i as int).drop_first() =~= lv.skip(i + 1));
        if added_line(&lines[i]) && violates_exec(rule, pieces, terms, &lines[i]) {
            return Some(i);
        }
        i += 1;
    }
    assert(lv.skip(i as int).len() == 0);
    None
}

/// The alert for one convention, if the diff may break it.
fn drift_of(conv: &Convention, changed_files: &[String], diff_content: &str, lines: &Vec<Vec<char>>) -> (r: Option<DriftAlert>)
    requires
        lines@.map_values(|v: Vec<char>| v@) == text_lines(diff_content@),
    ensures
        match r {
            Some(a) => convention_drift(*conv, changed_files@.map_values(|s: String| s@), diff_content@)
                == Some(a.diff_snippet@) && alert_for(a, *conv, a.diff_snippet@),
            None => convention_drift(*conv, changed_files@.map_values(|s: String| s@), diff_content@) is None,
        },
{
    reveal(convention_drift);
    reveal(alert_for);
    if !(concerns_exec(changed_files, conv.file_path.as_str()) && !diff_content.is_empty()) {
        return None;
    }
    let mut text = conv.error_context.clone();
    push_str(&mut text, " ");
    push_str(&mut text, conv.solution.as_str());
    proof {
        reveal_strlit(" ");
        assert(text@ =~= conv.error_context@ + seq![' '] + conv.solution@);
    }
    let rule = lower_chars(&chars_of(text.as_str()));
    let rule_s = string_of(&rule);
    let terms = extract_prohibited_terms(rule_s.as_str());
    let pieces = term_pieces_of(&rule);
    match find_violation(lines, &rule, &pieces, &terms) {
        Some(i) => {
            let mut description = "Diff line potentially conflicts with convention #".to_owned();
            push_all(&mut description, &decimal_of_i64(conv.id));
            push_str(&mut description, ": ");
            push_str(&mut description, conv.solution.as_str());
            proof {
                assert(lines@.map_values(|v: Vec<char>| v@)[i as int] == lines@[i as int]@);
            }
            Some(DriftAlert {
                file_path: conv.file_path.clone(),
                convention_id: conv.id,
                rule_snippet: conv.solution.clone(),
                diff_snippet: string_of(&lines[i]),
                severity: "warning".to_owned(),
                description,
            })
        },
        None => None,
    }
}

/// Each alert is the one raised for its convention and line.
pub open spec fn alerts_match(alerts: Seq<DriftAlert>, convs: Seq<Convention>, ds: Seq<(int, Seq<char>)>) -> bool {
    &&& alerts.len() == ds.len()
    &&& forall|k: int|
        0 <= k < ds.len() ==> 0 <= (#[trigger] ds[k]).0 < convs.len() && alert_for(
            alerts[k],
            convs[ds[k].0],
            ds[k].1,
        )
}

proof fn lemma_alerts_push(
    alerts: Seq<DriftAlert>,
    convs: Seq<Convention>,
    ds: Seq<(int, Seq<char>)>,
    a: DriftAlert,
    i: int,
    line: Seq<char>,
)
    requires
        alerts_match(alerts, convs, ds),
        0 <= i < convs.len(),
        alert_for(a, convs[i], line),
    ensures
        alerts_match(alerts.push(a), convs, ds.push((i, line))),
{
    let na = alerts.push(a);
    let nd = ds.push((i, line));
    assert forall|k: int| 0 <= k < nd.len() implies 0 <= (#[trigger] nd[k]).0 < convs.len() && alert_for(
        na[k],
        convs[nd[k].0],
        nd[k].1,
    ) by {
        if k < ds.len() {
            assert(nd[k] == ds[k]);
            assert(na[k] == alerts[k]);
        }
    }
}

/// The alerts for the added lines of `diff_content` that may break the
/// conventions `conventions` of the changed files `changed_files` (every
/// file when none are given): for each convention in order that concerns the
/// change, one alert for its first conflicting line.
pub fn detect_code_drift(conventions: &[Convention], changed_files: &[String], diff_content: &str) -> (r:
    Vec<DriftAlert>)
    ensures
        alerts_match(
            r@,
            conventions@,
            drifts(conventions@, changed_files@.map_values(|s: String| s@), diff_content@),
        ),
{
    let ghost changed = changed_files@.map_values(|s: String| s@);
    let dv = chars_of(diff_content);
    let lines = lines_of(&dv);
    proof {
        assert(lines@.map_values(|v: Vec<char>| v@) =~= text_lines(diff_content@));
    }
    let mut alerts: Vec<DriftAlert> = Vec::new();
    let mut c: usize = 0;
    while c < conventions.len()
        invariant
            c <= conventions@.len(),
            changed == changed_files@.map_values(|s: String| s@),
            dv@ == diff_content@,
            lines@.map_values(|v: Vec<char>| v@) == text_lines(diff_content@),
            alerts_match(alerts@, conventions@, drifts(conventions@.take(c as int), changed, diff_content@)),
        decreases conventions@.len() - c,
    {
        let ghost before = drifts(conventions@.take(c as int), changed, diff_content@);
        proof {
            assert(conventions@.take(c + 1).drop_last() =~= conventions@.take(c as int));
            assert(conventions@.take(c + 1).last() == conventions@[c as int]);
        }
        match drift_of(&conventions[c], changed_files, diff_content, &lines) {
            Some(a) => {
                let ghost line = a.diff_snippet@;
                proof {
                    lemma_alerts_push(alerts@, conventions@, before, a, c as int, line);
                }
                alerts.push(a);
                proof {
                    let after = drifts(conventions@.take(c + 1), changed, diff_content@);
                    assert(after == before.push((c as int, line)));
                }
            },
            None => {
                proof {
                    let after = drifts(conventions@.take(c + 1), changed, diff_content@);
                    assert(after == before);
                }
            },
        }
        c += 1;
    }
    assert(conventions@.take(c as int) =~= conventions@);
    alerts
}

} // verus!
