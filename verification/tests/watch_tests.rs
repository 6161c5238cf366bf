use ozymem::watch::{purged_files, touches_ignore_files, watch_actions, WatchAction, WatchEventKind, WatchedPath};

fn wp(path: &str, is_file: bool, is_binary: bool) -> WatchedPath {
    WatchedPath { path: path.to_string(), is_file, is_binary }
}

#[test]
fn ignore_file_changes_are_noticed() {
    assert!(touches_ignore_files(&[wp("/p/src/a.rs", true, false), wp("/p/.gitignore", true, false)]));
    assert!(touches_ignore_files(&[wp(r"C:\p\.ozymemignore", true, false)]));
    assert!(!touches_ignore_files(&[wp("/p/src/gitignore.rs", true, false)]));
    assert!(!touches_ignore_files(&[]));
}

#[test]
fn changed_files_are_reindexed_and_removed_ones_cleaned() {
    let patterns = vec!["generated".to_string()];
    let root = "/p";
    let paths = vec![
        wp("/p/src/a.rs", true, false),
        wp("/p/.gitignore", true, false),
        wp("/p/generated/b.rs", true, false),
        wp("/p/src/img.png", true, true),
        wp("/p/src", false, false),
        wp("/p/target/c.rs", true, false),
        wp("/p/src/d.rs", true, false),
    ];
    assert_eq!(
        watch_actions(WatchEventKind::Modify, &paths, &patterns, root),
        vec![WatchAction::Reindex(0), WatchAction::Reindex(6)]
    );
    assert_eq!(
        watch_actions(WatchEventKind::Create, &paths, &patterns, root),
        vec![WatchAction::Reindex(0), WatchAction::Reindex(6)]
    );
    assert_eq!(
        watch_actions(WatchEventKind::Remove, &paths, &patterns, root),
        vec![WatchAction::Delete(0), WatchAction::Delete(4), WatchAction::Delete(6)]
    );
    assert_eq!(watch_actions(WatchEventKind::Other, &paths, &patterns, root), vec![]);
}

#[test]
fn newly_ignored_files_are_purged() {
    let indexed = vec!["/p/src/a.rs".to_string(), "/p/docs/b.md".to_string(), "/p/Docs/c.md".to_string()];
    assert_eq!(purged_files(&indexed, &["docs".to_string()], "/p"), vec![1, 2]);
    assert_eq!(purged_files(&indexed, &[], "/p"), Vec::<usize>::new());
}
