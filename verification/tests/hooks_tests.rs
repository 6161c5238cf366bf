use ozymem::hooks::{
    commit_note_content, hook_state, install_hook_content, is_fix_commit, parse_changed_files,
    primary_file, uninstall_hook_content, HookInstall, HookRemoval, HookState,
};

fn written(h: HookInstall) -> String {
    match h {
        HookInstall::Write(t) => t,
        HookInstall::AlreadyInstalled => panic!("expected a write"),
    }
}

#[test]
fn test_install_status_and_uninstall_hook() {
    // 1. Initial status: not installed
    assert!(hook_state(None) == HookState::NotInstalled);

    // 2. Install hook
    let content = written(install_hook_content(None));
    assert!(content.starts_with("#!/bin/sh\n"));
    assert!(content.contains("ozymem hook run post-commit"));

    // 3. Status: active
    assert!(hook_state(Some(&content)) == HookState::Active);

    // 4. Idempotent install
    assert!(matches!(install_hook_content(Some(&content)), HookInstall::AlreadyInstalled));

    // 5. Uninstall hook removes the file
    assert!(matches!(uninstall_hook_content(&content), HookRemoval::RemoveFile));
}

#[test]
fn install_appends_to_an_existing_hook_and_uninstall_restores_it() {
    let existing = "#!/bin/sh\necho hi\n\n";
    let content = written(install_hook_content(Some(existing)));
    assert!(content.starts_with("#!/bin/sh\necho hi\n\n# --- Ozymem automated knowledge capture ---\n"));
    assert!(content.ends_with("# --- End Ozymem ---\n"));
    match uninstall_hook_content(&content) {
        HookRemoval::Write(t) => assert_eq!(t, "#!/bin/sh\necho hi\n"),
        _ => panic!("expected the hook to be written back"),
    }
}

#[test]
fn uninstall_without_block_markers_drops_marker_lines() {
    let content = "#!/bin/sh\r\nozymem hook run post-commit\r\nmake test\n";
    match uninstall_hook_content(content) {
        HookRemoval::Write(t) => assert_eq!(t, "#!/bin/sh\nmake test\n"),
        _ => panic!("expected a write"),
    }
    assert!(matches!(uninstall_hook_content("#!/bin/sh\nmake\n"), HookRemoval::NotInstalled));
    assert!(hook_state(Some("#!/bin/sh\nmake\n")) == HookState::Foreign);
}

#[test]
fn changed_files_are_read_from_diff_tree_output() {
    let out = "M\tsrc/a.rs\nD\told.rs\n\nA  new file.rs\nbad\n";
    let files = parse_changed_files(out);
    assert_eq!(files.len(), 3);
    assert!(!files[0].deleted && files[0].rel_path == "src/a.rs");
    assert!(files[1].deleted && files[1].rel_path == "old.rs");
    assert!(!files[2].deleted && files[2].rel_path == "new");
    assert_eq!(primary_file(&files), Some("src/a.rs".to_string()));
    let only_deleted = parse_changed_files("D\tgone.rs\n");
    assert_eq!(primary_file(&only_deleted), None);
}

#[test]
fn commit_note_and_fix_detection() {
    assert_eq!(commit_note_content("Fix bug", "", "M\ta\n"), "Commit: Fix bug\nFiles:\nM\ta\n");
    assert_eq!(commit_note_content("T", "body", "x"), "Commit: T\nbody\nFiles:\nx");
    assert!(is_fix_commit("Fix crash"));
    assert!(is_fix_commit("Handle BUG in parser"));
    assert!(is_fix_commit("solve race"));
    assert!(!is_fix_commit("Add feature"));
}
