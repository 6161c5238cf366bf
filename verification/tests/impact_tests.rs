use ozymem::impact::{analyze_impact, judge_impact, FileNode, ImpactVisit};

fn visit(path: &str, depth: u32, lessons: i64, functions: i64, is_start: bool) -> ImpactVisit {
    ImpactVisit {
        node: FileNode {
            path: path.to_string(),
            language: "rust".to_string(),
            strategy: "ast".to_string(),
            function_count: functions,
            lesson_count: lessons,
        },
        depth,
        is_start,
        functions: vec!["main:1".to_string()],
        start_line: 1,
        end_line: 9,
    }
}

#[test]
fn severities_follow_the_rules() {
    let (s, r, g) = judge_impact("src/UserModel.rs", 3, 40, 5);
    assert_eq!(s, "breaking");
    assert!(r.starts_with("Contains schema/model"));
    assert!(g.starts_with("Review and update"));
    let (s, r, _) = judge_impact("src/a.rs", 2, 0, 5);
    assert_eq!(s, "warning");
    assert_eq!(r, "Has 2 known lesson(s) registered — previous issues found in this file");
    let (s, r, _) = judge_impact("src/a.rs", 0, 16, 5);
    assert_eq!(s, "warning");
    assert_eq!(r, "Large file (16 functions) — high risk of cascading changes");
    let (s, _, g) = judge_impact("src/a.rs", 0, 15, 1);
    assert_eq!(s, "warning");
    assert_eq!(g, "Check for cascading changes in consuming code; verify tests still pass");
    let (s, r, g) = judge_impact("src/a.rs", 0, 15, 2);
    assert_eq!(s, "info");
    assert_eq!(r, "Indirect dependency — unlikely to require changes");
    assert_eq!(g, "Monitor for indirect effects; no immediate action required");
}

#[test]
fn impact_skips_the_start_and_far_files() {
    let visits = vec![
        visit("src/start.rs", 0, 0, 0, true),
        visit("src/near.rs", 1, 0, 0, false),
        visit("src/far.rs", 4, 0, 0, false),
        visit("src/mid.rs", 2, 1, 0, false),
    ];
    let out = analyze_impact(&visits, 2);
    assert_eq!(out.len(), 2);
    assert_eq!(out[0].file_path, "src/near.rs");
    assert_eq!(out[0].severity, "warning");
    assert_eq!(out[1].file_path, "src/mid.rs");
    assert_eq!(out[1].depth, 2);
    assert_eq!(out[1].functions, vec!["main:1"]);
    assert_eq!((out[1].start_line, out[1].end_line), (1, 9));
}
