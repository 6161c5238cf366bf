use ozymem::git::{
    blame_entry, blame_span, changed_path, diff_file_entry, format_timestamp, no_changes_message,
    patch_line, recent_change, timestamp_or_seconds, DiffStatus,
};

#[test]
fn timestamps_are_utc_text_or_seconds() {
    assert_eq!(format_timestamp(0), "1970-01-01 00:00:00");
    assert_eq!(format_timestamp(1431648000), "2015-05-15 00:00:00");
    assert_eq!(format_timestamp(i64::MAX), "9223372036854775807");
    assert_eq!(timestamp_or_seconds(None, -5), "-5");
    assert_eq!(timestamp_or_seconds(Some("x".to_string()), -5), "x");
}

#[test]
fn recent_change_defaults_and_merge_flag() {
    let c = recent_change("abc".to_string(), None, Some("  Initial commit\n"), 0, vec!["a.rs".to_string()], 2);
    assert_eq!(c.author, "unknown");
    assert_eq!(c.message, "Initial commit");
    assert_eq!(c.timestamp, "1970-01-01 00:00:00");
    assert!(c.is_merge);
    let r = recent_change("d".to_string(), Some("Ann"), None, 0, vec![], 0);
    assert_eq!(r.author, "Ann");
    assert_eq!(r.message, "");
    assert!(!r.is_merge);
}

#[test]
fn blame_hunks_are_clipped_to_the_range() {
    assert_eq!(blame_span(10, 5, None, None), Some((10, 14)));
    assert_eq!(blame_span(10, 5, Some(12), Some(20)), Some((12, 14)));
    assert_eq!(blame_span(10, 5, Some(15), None), None);
    assert_eq!(blame_span(10, 5, None, Some(9)), None);
    assert_eq!(blame_span(1, 1, Some(1), Some(1)), Some((1, 1)));
    let e = blame_entry("h".to_string(), Some("Bo"), 0, 3, 4);
    assert_eq!((e.start_line, e.end_line), (3, 4));
    assert_eq!(e.author, "Bo");
}

#[test]
fn diff_entries_and_patch_lines() {
    let e = diff_file_entry(None, Some("old.rs".to_string()), DiffStatus::Deleted);
    assert_eq!(e.path, "old.rs");
    assert_eq!(e.status, "deleted");
    assert_eq!(diff_file_entry(None, None, DiffStatus::Other).status, "unknown");
    assert_eq!(changed_path(Some("n.rs".to_string()), Some("o.rs".to_string())), Some("n.rs".to_string()));
    assert_eq!(changed_path(None, None), None);
    assert_eq!(patch_line('+', "fn main()\n"), "+fn main()\n");
    assert_eq!(patch_line('F', "--- a/x\n"), "--- a/x\n");
    assert_eq!(no_changes_message("main.rs", "HEAD", None), "No changes for main.rs between HEAD and HEAD");
}
