use ozymem::bundle::{
    bundle_header, export_summary, import_summary, payload_checksum, plan_import, verify_payload,
    BundleError, LessonFields, BUNDLE_FORMAT_VERSION, DEFAULT_BUNDLE_EXT,
};

fn lesson(file: &str, solution: &str) -> LessonFields {
    LessonFields {
        file_path: file.to_string(),
        symbol_name: "f".to_string(),
        error_context: "ctx".to_string(),
        solution: solution.to_string(),
        kind: "lesson".to_string(),
    }
}

#[test]
fn payload_checksum_is_sha256_hex() {
    assert_eq!(
        payload_checksum(b""),
        "e3b0c44298fc1c149afbf4c8996fb92427ae41e4649b934ca495991b7852b855"
    );
    assert_eq!(
        payload_checksum(b"abc"),
        "ba7816bf8f01cfea414140de5dae2223b00361a396177a9cb410ff61f20015ad"
    );
}

#[test]
fn exported_header_verifies_and_tampering_is_caught() {
    let payload = br#"{"lessons":[],"api_routes":[]}"#;
    let header = bundle_header("demo", "2024-01-01T00:00:00Z".to_string(), 0, 0, payload);
    assert_eq!(header.format_version, BUNDLE_FORMAT_VERSION);
    assert_eq!(DEFAULT_BUNDLE_EXT, "ozymem");
    assert!(header.metadata.is_empty());
    assert!(verify_payload(&header, payload).is_ok());
    match verify_payload(&header, b"{}") {
        Err(e) => {
            let BundleError::ChecksumMismatch { expected, computed } = &e;
            assert_eq!(expected, &header.sha256_payload);
            assert_eq!(computed, &payload_checksum(b"{}"));
            assert!(e.message().starts_with("Knowledge bundle checksum mismatch! Expected: "));
        }
        Ok(()) => panic!("tampered payload accepted"),
    }
    let s = export_summary("out.ozymem".to_string(), &header, 123);
    assert_eq!(s.sha256, header.sha256_payload);
    assert_eq!(s.file_size_bytes, 123);
}

#[test]
fn import_plan_skips_known_lessons_only_when_merging() {
    let existing = vec![lesson("a.rs", "x")];
    let incoming = vec![lesson("a.rs", "x"), lesson("a.rs", "y"), lesson("b.rs", "x")];
    let merge = plan_import(&existing, &incoming, true);
    assert_eq!(merge, vec![false, true, true]);
    let overwrite = plan_import(&existing, &incoming, false);
    assert_eq!(overwrite, vec![true, true, true]);
    let s = import_summary("in".to_string(), "demo".to_string(), &merge, 4, true);
    assert_eq!(s.lessons_imported, 2);
    assert_eq!(s.lessons_skipped_duplicate, 1);
    assert_eq!(s.lessons_imported + s.lessons_skipped_duplicate, incoming.len());
    assert_eq!(s.routes_imported, 4);
    assert_eq!(s.mode, "merge");
    let o = import_summary("in".to_string(), "demo".to_string(), &overwrite, 0, false);
    assert_eq!(o.mode, "overwrite");
    assert_eq!(o.lessons_skipped_duplicate, 0);
}
