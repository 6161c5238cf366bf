use ozymem::summary::{graph_summary, memory_usage, subpath_like_patterns, summary_fits, StoreCounts};

#[test]
fn strategies_are_counted_in_their_own_totals() {
    let counts = StoreCounts {
        file_count: 10000,
        function_count: 42,
        engram_count: 7,
        edge_count: 30,
        lessons_without_embedding: 2,
    };
    let rows = vec![
        ("NativeAST".to_string(), 20),
        ("ExtensionWASM".to_string(), 5),
        ("TextHeuristic".to_string(), 10),
        ("Regex".to_string(), 7),
    ];
    let s = graph_summary(counts, &rows);
    assert_eq!(s.file_count, 10000);
    assert_eq!(s.vertex_count, 10000);
    assert_eq!(s.function_count, 42);
    assert_eq!(s.engram_count, 7);
    assert_eq!(s.edge_count, 30);
    assert_eq!(s.native_ast_function_count, 20);
    assert_eq!(s.extension_wasm_function_count, 5);
    assert_eq!(s.text_heuristic_function_count, 17);
    assert_eq!(
        s.native_ast_function_count + s.extension_wasm_function_count + s.text_heuristic_function_count,
        rows.iter().map(|r| r.1).sum::<i64>()
    );
    assert_eq!(s.memory_usage, "2 MB");
    assert_eq!(s.lessons_without_embedding, 2);
}

#[test]
fn memory_estimate_rounds_down_then_adds_one() {
    assert_eq!(memory_usage(0), "1 MB");
    assert_eq!(memory_usage(5242), "1 MB");
    assert_eq!(memory_usage(5243), "2 MB");
    assert_eq!(memory_usage(5243 * 2), "3 MB");
    assert_eq!(memory_usage(1_000_000), "191 MB");
}

#[test]
fn subpath_patterns_cover_both_separators() {
    let (fwd, bwd) = subpath_like_patterns(r"src\api\");
    assert_eq!(fwd, "%src/api%");
    assert_eq!(bwd, r"%src\api%");
    let (fwd, bwd) = subpath_like_patterns("crates/core/");
    assert_eq!(fwd, "%crates/core%");
    assert_eq!(bwd, r"%crates\core%");
}

#[test]
fn summary_fit_is_checked_before_computing() {
    let counts = StoreCounts { file_count: 3, function_count: 1, engram_count: 0, edge_count: 0, lessons_without_embedding: 0 };
    assert!(summary_fits(&counts, &[("NativeAST".to_string(), 5), ("Regex".to_string(), 7)]));
    assert!(!summary_fits(&counts, &[("NativeAST".to_string(), i64::MAX), ("NativeAST".to_string(), 1)]));
    assert!(summary_fits(&counts, &[("NativeAST".to_string(), i64::MAX), ("Regex".to_string(), 1)]));
    let huge = StoreCounts { file_count: i64::MAX / 100, function_count: 0, engram_count: 0, edge_count: 0, lessons_without_embedding: 0 };
    assert!(!summary_fits(&huge, &[]));
}
