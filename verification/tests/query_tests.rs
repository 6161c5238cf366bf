use ozymem::query::{
    compact_text, extract_line_range, query_skills, route_query, safe_unknown_query,
    split_query_tokens, QueryRoute,
};

#[test]
fn split_query_tokens_preserves_quoted_text() {
    let tokens = split_query_tokens("grep \"record lesson\" 220-260");
    assert_eq!(tokens, vec!["grep", "record lesson", "220-260"]);
}

#[test]
fn extract_line_range_removes_range_argument() {
    let args = vec!["auth".to_string(), "223-238".to_string()];
    let (rest, range) = extract_line_range(&args);
    assert_eq!(rest, vec!["auth"]);
    assert_eq!(range, Some((223, 238)));
}

#[test]
fn unknown_query_is_safe_reject_without_shell() {
    let output = safe_unknown_query("rm -rf", "No seguro");
    assert_eq!(output.mode, "safe");
    assert_eq!(output.intent, "unknown");
    assert!(output.results[0].detail.contains("No se ejecutó shell externo"));
}

#[test]
fn skills_query_uses_official_metadata() {
    let output = query_skills(&["react".to_string()], 5);
    assert_eq!(output.intent, "skills_official_metadata");
    assert!(output
        .results
        .iter()
        .any(|r| r.detail.contains("skills.sh/official") || r.detail.contains("facebook/react")));
}

#[test]
fn split_query_tokens_drops_blank_runs() {
    let tokens = split_query_tokens("  find   main  ");
    assert_eq!(tokens, vec!["find", "main"]);
}

#[test]
fn extract_line_range_keeps_last_range_and_other_args() {
    let args = vec!["1-2".to_string(), "x".to_string(), "10-20".to_string(), "5-".to_string()];
    let (rest, range) = extract_line_range(&args);
    assert_eq!(rest, vec!["x", "5-"]);
    assert_eq!(range, Some((10, 20)));
}

#[test]
fn compact_text_collapses_white_space_and_cuts() {
    assert_eq!(compact_text("a  b\n c", 10), "a b c");
    assert_eq!(compact_text("abcdefghij", 5), "abcd…");
}

#[test]
fn queries_are_routed_by_their_verb() {
    let p = route_query(&["GREP".to_string(), "\"record lesson\"".to_string(), "x".to_string()]);
    assert_eq!(p.route, QueryRoute::Grep);
    assert_eq!(p.raw, "GREP \"record lesson\" x");
    assert_eq!(p.args, vec!["record lesson", "x"]);
    assert_eq!(route_query(&["Símbolo".to_string(), "Foo".to_string()]).route, QueryRoute::Find);
    assert_eq!(route_query(&["skills".to_string()]).route, QueryRoute::Skills);
    assert_eq!(route_query(&["  ".to_string()]).route, QueryRoute::Empty);
    assert_eq!(route_query(&["hello".to_string(), "world".to_string()]).route, QueryRoute::RawGrep);
    let short = route_query(&["ab".to_string()]);
    assert_eq!(short.route, QueryRoute::Unknown);
    assert_eq!(short.raw, "ab");
}

#[test]
fn ascii_text_is_compacted_by_characters() {
    assert_eq!(compact_text("  a   b \n c ", 100), "a b c");
    assert_eq!(compact_text("abcdef", 4), "abc…");
    for (v, n) in [("one two  three", 9usize), ("x", 0), ("  lead and trail  ", 8), ("abc", 3)] {
        let j = v.split_whitespace().collect::<Vec<_>>().join(" ");
        let want = if j.len() <= n { j.clone() } else { format!("{}…", &j[..n.saturating_sub(1)]) };
        assert_eq!(compact_text(v, n), want, "{v} {n}");
    }
}

#[test]
fn reversed_ranges_are_ordered_and_dash_words_kept() {
    let args = vec!["10-5".to_string(), "x".to_string(), "-3".to_string()];
    let (rest, range) = extract_line_range(&args);
    assert_eq!(rest, vec!["x".to_string(), "-3".to_string()]);
    assert_eq!(range, Some((5, 10)));
    assert_eq!(compact_text("  a   b \n c ", 100), "a b c");
}
