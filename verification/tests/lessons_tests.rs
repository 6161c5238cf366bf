use ozymem::lessons::{
    lesson_entry_text, lesson_like_fallback, lesson_search_limit, lesson_record_text, observation_window, stale_marks, LessonProbe, LessonRecord, StaleReason,
};

#[test]
fn live_lessons_print_without_a_tag() {
    let t = lesson_entry_text("gotcha", 0, None, "src/db.rs", "open", "locks on open", "use WAL");
    assert_eq!(t, "[gotcha] src/db.rs :: open\n    context: locks on open\n    solution: use WAL");
}

#[test]
fn stale_lessons_show_their_reason() {
    let t = lesson_entry_text("lesson", 1, Some("file_deleted"), "a.rs", "", "ctx", "sol");
    assert_eq!(t, "[lesson] [STALE: file_deleted] a.rs :: \n    context: ctx\n    solution: sol");
    let u = lesson_entry_text("lesson", 1, None, "a.rs", "f", "c", "s");
    assert_eq!(u, "[lesson] [STALE: unknown] a.rs :: f\n    context: c\n    solution: s");
}

fn probe(id: i64, symbol: &str, file_exists: bool, symbol_defined: bool) -> LessonProbe {
    LessonProbe { id, symbol_name: symbol.to_string(), file_exists, symbol_defined }
}

#[test]
fn missing_files_and_symbols_mark_lessons_stale() {
    let probes = vec![
        probe(1, "login", false, false),
        probe(2, "login", true, false),
        probe(3, "", true, false),
        probe(4, "logout", true, true),
        probe(5, "", false, true),
    ];
    let marks = stale_marks(&probes);
    assert_eq!(
        marks,
        vec![(1, StaleReason::FileDeleted), (2, StaleReason::SymbolRemoved), (5, StaleReason::FileDeleted)]
    );
    assert_eq!(StaleReason::FileDeleted.as_str(), "file_deleted");
    assert_eq!(StaleReason::SymbolRemoved.as_str(), "symbol_removed");
}

#[test]
fn listing_prints_error_file_and_solution() {
    let r = LessonRecord {
        file_path: "src/db.rs".to_string(),
        error_type: "database is locked".to_string(),
        solution: "retry with backoff".to_string(),
        timestamp: "1700000000".to_string(),
    };
    assert_eq!(
        lesson_record_text(&r),
        "[Error: database is locked] -> src/db.rs\nSolution: retry with backoff\n\n"
    );
}

#[test]
fn timelines_show_the_observations_around_one() {
    let ids = vec![3, 5, 8, 13, 21, 34];
    assert_eq!(observation_window(&ids, 13, 2, 1), vec![5, 8, 13, 21]);
    assert_eq!(observation_window(&ids, 3, 5, 0), vec![3]);
    assert_eq!(observation_window(&ids, 34, 1, 9), vec![21, 34]);
    assert_eq!(observation_window(&ids, 99, 3, 2), vec![3, 5, 8]);
    assert_eq!(observation_window(&[], 1, 3, 3), Vec::<i64>::new());
}

#[test]
fn lesson_searches_are_bounded_and_fall_back_to_like() {
    assert_eq!(lesson_search_limit(0), 1);
    assert_eq!(lesson_search_limit(7), 7);
    assert_eq!(lesson_search_limit(100), 100);
    assert_eq!(lesson_search_limit(5000), 100);
    assert_eq!(lesson_search_limit(usize::MAX), 1);
    assert_eq!(lesson_like_fallback("unwrap", false), Some("%unwrap%".to_string()));
    assert_eq!(lesson_like_fallback("unwrap", true), None);
    assert_eq!(lesson_like_fallback("", false), None);
}
