use ozymem::memory::{
    capture_learnings, extract_prohibited_terms, generate_id, normalize_scope, normalize_topic_key, normalized_hash,
};

#[test]
fn scopes_and_topic_keys() {
    assert_eq!(normalize_scope(Some("personal")), "personal");
    assert_eq!(normalize_scope(Some("team")), "project");
    assert_eq!(normalize_scope(None), "project");
    assert_eq!(normalize_topic_key("  Auth Flow!! / Login  "), "auth-flow-/-login");
}

#[test]
fn content_hash_ignores_case_and_spacing() {
    assert_eq!(normalized_hash("Hello   World"), normalized_hash("hello world"));
    assert_eq!(
        normalized_hash("abc"),
        "ba7816bf8f01cfea414140de5dae2223b00361a396177a9cb410ff61f20015ad"
    );
}

#[test]
fn generated_ids_are_hex() {
    assert_eq!(generate_id("obs", 255, 16), "obs_ff_10");
    assert_eq!(generate_id("s", 0, 0), "s_0_0");
}

#[test]
fn prohibited_terms_come_from_the_rule() {
    let terms = extract_prohibited_terms("Never use unwrap, always handle errors");
    assert_eq!(terms, vec!["unwrap", "unwrap"]);
}

#[test]
fn learnings_come_from_their_section_only() {
    let text = "# Session\nintro line that is long\n## Key Learnings:\n- Always run migrations first\n* short\n1) Use the registry for names\r\n## Next steps\n- never captured after the section\n";
    let notes = capture_learnings(text);
    assert_eq!(notes.len(), 2);
    assert_eq!(notes[0].content, "Always run migrations first");
    assert_eq!(notes[0].title, "Always run migrations first");
    assert_eq!(notes[1].content, "Use the registry for names");
}

#[test]
fn learning_titles_keep_eighty_characters() {
    let long = "x".repeat(100);
    let text = format!("## APRENDIZAJES CLAVE\n  - {}  \n", long);
    let notes = capture_learnings(&text);
    assert_eq!(notes.len(), 1);
    assert_eq!(notes[0].content, long);
    assert_eq!(notes[0].title, "x".repeat(80));
    assert!(notes[0].content.starts_with(&notes[0].title));
    assert!(capture_learnings("- Always run migrations first\n").is_empty());
}

#[test]
fn a_topic_key_normalizes_to_itself() {
    for s in ["  Auth Flow / JWT!! ", "--a--b--", "ÄÖ über", "", "x/y-z", "Straße-Ω"] {
        let k = normalize_topic_key(s);
        assert_eq!(normalize_topic_key(&k), k, "{s}");
        assert!(k.chars().all(|c| c.is_ascii_lowercase() || c.is_ascii_digit() || c == '/' || c == '-'));
        assert!(!k.starts_with('-') && !k.ends_with('-') && !k.contains("--"));
    }
    assert_eq!(normalize_topic_key("  Auth Flow / JWT!! "), "auth-flow-/-jwt");
}

#[test]
fn prohibited_terms_are_words_of_the_rule() {
    for rule in ["Never use unwrap, prefer expect.", "Do not call panic! or exit; always log", "Prefer iterators", "FORBIDDEN: raw_sql and the db_cursor"] {
        let lower = rule.to_lowercase();
        let terms = extract_prohibited_terms(rule);
        for t in &terms {
            assert!(lower.contains(t.as_str()), "{rule}: {t}");
            assert!(t.len() >= 2);
            assert!(t.chars().all(|c| c.is_alphanumeric() || c == '_'));
            assert!(!["the", "a", "an", "for", "to", "in", "on", "with", "and", "or", "use", "using", "rule", "standard", "point"].contains(&t.as_str()));
        }
        if !["never ", "do not ", "prohibited ", "evitar ", "forbidden "].iter().any(|p| lower.contains(p)) {
            assert!(terms.is_empty());
        }
    }
    assert_eq!(extract_prohibited_terms("Never use unwrap, prefer expect."), vec!["unwrap", "unwrap"]);
}
