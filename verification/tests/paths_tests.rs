use ozymem::paths::{
    gitignore_change, GitignoreChange,
    clean_path, ignore_patterns_for_project, ignore_patterns_from, is_garbage_file, is_ignored_by_patterns, normalize_path,
    path_matches_ignore, strip_unc_prefix,
};
use ozymem::paths::{blocked_path, is_noise_dir, should_descend, should_process_delete, should_watch_path};

#[test]
fn dynamic_ignore_patterns_load_and_check() {
    let patterns = ignore_patterns_for_project(Some("pattern1\n# comment\npattern2\n"), Some("pattern3\n"));
    assert_eq!(patterns.len(), 3);
    assert!(patterns.contains(&"pattern1".to_string()));
    assert!(patterns.contains(&"pattern2".to_string()));
    assert!(patterns.contains(&"pattern3".to_string()));

    let root = "/tmp/ozymem-cli-ignore-test";
    assert!(is_ignored_by_patterns("/tmp/ozymem-cli-ignore-test/pattern1", &patterns, root));
    assert!(!is_ignored_by_patterns("/tmp/ozymem-cli-ignore-test/other_file", &patterns, root));
    assert!(is_ignored_by_patterns("/tmp/ozymem-cli-ignore-test/pattern3", &patterns, root));
}

#[test]
fn ignore_file_lines_are_trimmed() {
    assert_eq!(ignore_patterns_from("  target/ \r\n\n#x\n node_modules"), vec!["target/", "node_modules"]);
}

#[test]
fn clean_and_strip_prefixes() {
    assert_eq!(clean_path(r"\\?\C:\x"), r"C:\x");
    assert_eq!(clean_path("/x"), "/x");
    assert_eq!(strip_unc_prefix(r"\\?\UNC\server\share"), r"\\server\share");
    assert_eq!(normalize_path(r"\\?\D:\a\\"), r"D:\a");
}

#[test]
fn garbage_and_ignore_matching() {
    assert!(is_garbage_file("logs/app.LOG"));
    assert!(!is_garbage_file("src/main.rs"));
    assert!(!is_garbage_file(".log"));
    let patterns = vec!["Build".to_string()];
    assert!(path_matches_ignore("/p/build/x.rs", &patterns, "/p"));
    assert!(!path_matches_ignore("/p/src/x.rs", &patterns, "/p"));
}

#[test]
fn gitignore_gets_the_ozymem_entry_once() {
    assert!(matches!(gitignore_change(None), GitignoreChange::Create(t) if t == "/.ozymem\n"));
    assert!(matches!(gitignore_change(Some("target\n .ozymem/ \n")), GitignoreChange::Keep));
    assert!(matches!(
        gitignore_change(Some("target\n")),
        GitignoreChange::Append(t) if t == "\n# Ozymem project memory\n/.ozymem\n"
    ));
}

#[test]
fn noise_directories_are_told_by_name() {
    assert!(is_noise_dir("/work/app/node_modules", true));
    assert!(is_noise_dir(r"C:\work\app\target", true));
    assert!(!is_noise_dir("/work/app/node_modules", false));
    assert!(!is_noise_dir("/work/app/src", true));
}

#[test]
fn watched_paths_skip_ignored_garbage_and_tool_folders() {
    let patterns = vec!["generated".to_string()];
    let root = "/work/app";
    assert!(should_watch_path("/work/app/src/main.rs", &patterns, root, true, false));
    assert!(!should_watch_path("/work/app/src/main.rs", &patterns, root, false, false));
    assert!(!should_watch_path("/work/app/src/main.rs", &patterns, root, true, true));
    assert!(!should_watch_path("/work/app/generated/x.rs", &patterns, root, true, false));
    assert!(!should_watch_path("/work/app/logs/run.log", &patterns, root, true, false));
    assert!(!should_watch_path("/work/app/node_modules/x/index.js", &patterns, root, true, false));
    assert!(!should_watch_path("/work/app/.hidden/x.rs", &patterns, root, true, false));
    assert!(blocked_path("/work/app/.vscode/settings.json"));
    assert!(!blocked_path("/work/app/src/lib.rs"));
}

#[test]
fn deleted_paths_are_cleaned_unless_filtered() {
    let patterns = vec!["generated".to_string()];
    let root = "/work/app";
    assert!(should_process_delete("/work/app/src/old.rs", &patterns, root, false));
    assert!(!should_process_delete("/work/app/src/old.rs", &patterns, root, true));
    assert!(!should_process_delete("/work/app/generated/old.rs", &patterns, root, false));
    assert!(!should_process_delete("/work/app/build/out.rs", &patterns, root, false));
}

#[test]
fn the_scan_walk_skips_excluded_and_hidden_folders() {
    let patterns = vec!["docs".to_string()];
    let root = "/work/app";
    assert!(should_descend("/work/app/src", &patterns, root));
    assert!(!should_descend("/work/app/vendor", &patterns, root));
    assert!(!should_descend("/work/app/Storage", &patterns, root));
    assert!(!should_descend("/work/app/.git", &patterns, root));
    assert!(!should_descend("/work/app/docs", &patterns, root));
    assert!(!should_descend("/home/u/AppData/Google/Chrome/x", &patterns, root));
    assert!(should_descend("/", &patterns, root));
}

#[test]
fn project_patterns_take_the_ozymemignore_first() {
    assert_eq!(ignore_patterns_for_project(Some("a\n"), Some("b\n# c\n")), vec!["a", "b"]);
    assert_eq!(ignore_patterns_for_project(None, Some(" b ")), vec!["b"]);
    assert!(ignore_patterns_for_project(None, None).is_empty());
}

#[test]
fn a_made_gitignore_change_is_kept_next_time() {
    assert!(matches!(gitignore_change(None), GitignoreChange::Create(_)));
    assert!(matches!(gitignore_change(Some("/.ozymem\n")), GitignoreChange::Keep));
    let before = "target/\n";
    let after = match gitignore_change(Some(before)) {
        GitignoreChange::Append(t) => format!("{before}{t}"),
        _ => panic!("expected an append"),
    };
    assert!(matches!(gitignore_change(Some(&after)), GitignoreChange::Keep));
}

#[test]
fn paths_outside_the_root_keep_their_whole_text() {
    let patterns = vec!["a/b".to_string()];
    assert!(!is_ignored_by_patterns("/a/b/c", &patterns, "/r"));
    assert!(!path_matches_ignore("/a/b/c", &patterns, "/r"));
    assert!(is_ignored_by_patterns("/r/a/b/c", &patterns, "/r"));
    assert!(is_ignored_by_patterns("/r/a/b", &patterns, "/r"));
    // the root is one of the components of a path outside the project
    let root_pattern = vec!["/".to_string()];
    assert!(is_ignored_by_patterns("/a/b/c", &root_pattern, "/r"));
    assert!(!is_ignored_by_patterns("/r/a/b/c", &root_pattern, "/r"));
}

#[test]
fn relative_text_keeps_doubled_separators() {
    let patterns = vec!["src/x".to_string()];
    assert!(!is_ignored_by_patterns("/r/src//x", &patterns, "/r"));
    assert!(is_ignored_by_patterns("/r/src/x", &patterns, "/r"));
    assert!(is_ignored_by_patterns("/r//src/x/", &patterns, "/r"));
    assert!(is_ignored_by_patterns("/r/./src/x/y.rs", &patterns, "/r"));
}

#[test]
fn garbage_is_told_by_extension_only() {
    assert!(is_garbage_file("app.LOG"));
    assert!(!is_garbage_file("main.rs"));
    assert!(!is_garbage_file("Makefile"));
}
