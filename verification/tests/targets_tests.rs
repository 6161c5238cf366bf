use ozymem::targets::{suffix_like_patterns, suffix_match};

#[test]
fn paths_are_found_by_their_ending() {
    let keys = vec![
        r"C:\proj\src\lib.rs".to_string(),
        r"C:\proj\src\auth\login.rs".to_string(),
        "/home/u/proj/src/auth/login.rs".to_string(),
    ];
    assert_eq!(suffix_match(&keys, r"auth\login.rs"), Some(1));
    assert_eq!(suffix_match(&keys, "src/lib.rs/"), Some(0));
    assert_eq!(suffix_match(&keys, "main.rs"), None);
    assert_eq!(suffix_match(&[], "lib.rs"), None);
}

#[test]
fn ending_patterns_cover_both_separators() {
    let (back, fwd) = suffix_like_patterns("src/auth\\login.rs");
    assert_eq!(back, r"%src\auth\login.rs");
    assert_eq!(fwd, "%src/auth/login.rs");
}
