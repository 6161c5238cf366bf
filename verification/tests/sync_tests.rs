use ozymem::sync::{
    check_noise_or_huge_file, delta_outcome, is_noise_or_huge_file, is_unchanged, screen_delta, source_digest,
    DeltaIndexResult, NoiseFilterDecision, DEFAULT_MAX_DELTA_FILE_BYTES,
};

#[test]
fn noise_filter_decisions() {
    let max = DEFAULT_MAX_DELTA_FILE_BYTES;
    assert_eq!(
        check_noise_or_huge_file("/p/node_modules/x.js", &[true, true, false], Some(10), max),
        NoiseFilterDecision::NoiseDir
    );
    assert_eq!(
        check_noise_or_huge_file("/p/Cargo.lock", &[true, false], Some(10), max),
        NoiseFilterDecision::LockFile
    );
    assert_eq!(
        check_noise_or_huge_file("/p/app.min.js", &[true, false], Some(10), max),
        NoiseFilterDecision::MinifiedOrBundle
    );
    assert_eq!(
        check_noise_or_huge_file("/p/data.csv", &[true, false], Some(10), max),
        NoiseFilterDecision::LargeOrBinaryData
    );
    assert_eq!(
        check_noise_or_huge_file("/p/big.rs", &[true, false], Some(max + 1), max),
        NoiseFilterDecision::ExceedsSizeLimit(max + 1)
    );
    assert_eq!(
        check_noise_or_huge_file("/p/ok.rs", &[true, false], Some(max), max),
        NoiseFilterDecision::Process
    );
    assert!(!is_noise_or_huge_file("/p/ok.rs", &[true, false], None, max));
    assert_eq!(DEFAULT_MAX_DELTA_FILE_BYTES, 262144);
}

#[test]
fn delta_screening_and_digests() {
    assert_eq!(screen_delta(NoiseFilterDecision::LockFile, false, false), Some(DeltaIndexResult::SkippedNoise));
    assert_eq!(
        screen_delta(NoiseFilterDecision::ExceedsSizeLimit(9), true, true),
        Some(DeltaIndexResult::SkippedTooLarge { size_bytes: 9 })
    );
    assert_eq!(screen_delta(NoiseFilterDecision::Process, true, true), Some(DeltaIndexResult::SkippedBinary));
    assert_eq!(screen_delta(NoiseFilterDecision::Process, false, true), Some(DeltaIndexResult::SkippedNoise));
    assert_eq!(screen_delta(NoiseFilterDecision::Process, false, false), None);
    let d = source_digest("abc");
    assert_eq!(d, "ba7816bf8f01cfea414140de5dae2223b00361a396177a9cb410ff61f20015ad");
    assert!(is_unchanged(Some(&d), &d));
    assert!(!is_unchanged(Some(""), ""));
    assert!(!is_unchanged(None, &d));
    assert!(!is_unchanged(Some("x"), &d));
}

#[test]
fn delta_outcome_follows_the_indexer_order() {
    let abc = "ba7816bf8f01cfea414140de5dae2223b00361a396177a9cb410ff61f20015ad";
    let p = NoiseFilterDecision::Process;
    assert_eq!(delta_outcome(NoiseFilterDecision::LockFile, true, true, None, None), Some(DeltaIndexResult::SkippedNoise));
    assert_eq!(delta_outcome(p, true, true, Some("abc"), Some(abc)), Some(DeltaIndexResult::SkippedBinary));
    assert_eq!(delta_outcome(p, false, true, Some("abc"), Some(abc)), Some(DeltaIndexResult::SkippedNoise));
    assert_eq!(delta_outcome(p, false, false, None, Some(abc)), Some(DeltaIndexResult::SkippedNoise));
    assert_eq!(delta_outcome(p, false, false, Some("abc"), Some(abc)), Some(DeltaIndexResult::Unchanged));
    assert_eq!(delta_outcome(p, false, false, Some("abd"), Some(abc)), None);
    assert_eq!(delta_outcome(p, false, false, Some("abc"), Some("")), None);
}
