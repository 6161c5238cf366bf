use ozymem::graph::DependencyGraph;
use ozymem::impact::{analyze_impact, FileNode, ImpactVisit};

fn row(path: &str) -> FileNode {
    FileNode {
        path: path.to_string(),
        language: "rust".to_string(),
        strategy: "ast".to_string(),
        function_count: 3,
        lesson_count: 0,
    }
}

fn dep(a: &str, b: &str) -> (String, String) {
    (a.to_string(), b.to_string())
}

/// a -> b, a -> c, b -> d, c -> d, d -> e, and f alone.
fn sample() -> DependencyGraph {
    let rows = vec![
        row("src/a.rs"),
        row("src/b.rs"),
        row("src/c.rs"),
        row("src/d.rs"),
        row("src/e.rs"),
        row("src/f.rs"),
    ];
    let deps = vec![
        dep("src/a.rs", "src/b.rs"),
        dep("src/a.rs", "src/c.rs"),
        dep("src/b.rs", "src/d.rs"),
        dep("src/c.rs", "src/d.rs"),
        dep("src/d.rs", "src/e.rs"),
        dep("src/d.rs", "src/missing.rs"),
    ];
    DependencyGraph::rebuild(&rows, &deps)
}

#[test]
fn rebuild_indexes_every_file_and_known_dependency() {
    let g = sample();
    assert_eq!(g.node_count(), 6);
    assert_eq!(g.lookup("src/c.rs"), Some(2));
    assert_eq!(g.lookup("src/missing.rs"), None);
    assert_eq!(g.file_node(4).path, "src/e.rs");
}

#[test]
fn a_repeated_path_is_indexed_at_its_last_node() {
    let rows = vec![row("x.rs"), row("y.rs"), row("x.rs")];
    let deps = vec![dep("y.rs", "x.rs")];
    let g = DependencyGraph::rebuild(&rows, &deps);
    assert_eq!(g.lookup("x.rs"), Some(2));
    let walk = g.breadth_first(1);
    assert_eq!(walk, vec![(1, 0), (2, 1)]);
}

#[test]
fn neighbours_come_most_recent_first() {
    let g = sample();
    assert_eq!(g.outgoing_deps("src/a.rs", "src/a.rs"), vec!["src/c.rs", "src/b.rs"]);
    assert_eq!(g.incoming_deps("src/d.rs", "src/d.rs"), vec!["src/c.rs", "src/b.rs"]);
    assert!(g.outgoing_deps("nope.rs", "nope.rs").is_empty());
    let info = g.neighbor_info("src/d.rs", "src/d.rs");
    assert_eq!(info.file_path, "src/d.rs");
    assert_eq!(info.incoming, vec!["src/c.rs", "src/b.rs"]);
    assert_eq!(info.outgoing, vec!["src/e.rs"]);
}

#[test]
fn a_file_is_found_by_its_resolved_or_given_path() {
    let g = sample();
    assert_eq!(g.locate("whatever", "src/b.rs"), Some(1));
    assert_eq!(g.locate("src/b.rs", "unknown"), Some(1));
    assert_eq!(g.locate("unknown", "unknown"), None);
}

#[test]
fn breadth_first_walk_visits_by_distance() {
    let g = sample();
    let walk = g.breadth_first(0);
    assert_eq!(walk, vec![(0, 0), (2, 1), (1, 1), (3, 2), (4, 3)]);
    assert_eq!(g.breadth_first(5), vec![(5, 0)]);
    assert_eq!(g.reached_files("src/d.rs", "src/d.rs"), vec![(3, 0), (4, 1)]);
    assert!(g.reached_files("nope.rs", "nope.rs").is_empty());
}

#[test]
fn a_cycle_back_to_the_start_keeps_its_depth() {
    let rows = vec![row("a"), row("b")];
    let deps = vec![dep("a", "b"), dep("b", "a"), dep("a", "a")];
    let g = DependencyGraph::rebuild(&rows, &deps);
    assert_eq!(g.breadth_first(0), vec![(0, 0), (1, 1)]);
}

#[test]
fn impact_reports_reached_files_within_depth() {
    let g = sample();
    let walk = g.reached_files("src/a.rs", "src/a.rs");
    let visits: Vec<ImpactVisit> = walk
        .iter()
        .map(|&(i, d)| ImpactVisit {
            node: g.file_node(i),
            depth: d,
            is_start: i == 0,
            functions: vec![],
            start_line: 0,
            end_line: 0,
        })
        .collect();
    let entries = analyze_impact(&visits, 1);
    let got: Vec<(String, u32, String)> =
        entries.iter().map(|e| (e.file_path.clone(), e.depth, e.severity.clone())).collect();
    assert_eq!(
        got,
        vec![
            ("src/c.rs".to_string(), 1, "warning".to_string()),
            ("src/b.rs".to_string(), 1, "warning".to_string()),
        ]
    );
    let deeper = analyze_impact(&visits, 5);
    assert_eq!(deeper.len(), 4);
    assert_eq!(deeper[3].file_path, "src/e.rs");
    assert_eq!(deeper[3].severity, "info");
}

#[test]
fn simple_paths_follow_the_search_order() {
    let g = sample();
    let paths = g.find_graph_path("src/a.rs", "src/a.rs", "src/d.rs", "src/d.rs", 10, 10);
    assert_eq!(
        paths,
        vec![
            vec!["src/a.rs", "src/c.rs", "src/d.rs"],
            vec!["src/a.rs", "src/b.rs", "src/d.rs"],
        ]
    );
    let first = g.find_graph_path("src/a.rs", "x", "src/d.rs", "y", 1, 10);
    assert_eq!(first, vec![vec!["src/a.rs", "src/c.rs", "src/d.rs"]]);
    let short = g.find_graph_path("src/a.rs", "src/a.rs", "src/e.rs", "src/e.rs", 10, 1);
    assert!(short.is_empty());
    assert!(g.find_graph_path("nope", "nope", "src/d.rs", "src/d.rs", 10, 10).is_empty());
}

#[test]
fn speculative_neighbours_come_from_the_graph_or_the_directory() {
    let g = sample();
    assert_eq!(
        g.speculative_neighbors("src/d.rs", "src/d.rs"),
        vec!["src/e.rs", "src/b.rs", "src/c.rs"]
    );
    assert_eq!(
        g.speculative_neighbors("src/f.rs", "src/f.rs"),
        vec!["src/a.rs", "src/b.rs", "src/c.rs", "src/d.rs"]
    );
    assert_eq!(g.nearby_files("src/a.rs", "src/a.rs", "src"), vec![
        "src/b.rs", "src/c.rs", "src/d.rs", "src/e.rs"
    ]);
    assert!(g.nearby_files("src/a.rs", "src/a.rs", "").is_empty());
}

#[test]
fn a_new_graph_grows_by_files_and_dependencies() {
    let mut g = DependencyGraph::new();
    let a = g.add_file(row("one.rs"));
    let b = g.add_file(row("two.rs"));
    g.add_dependency(a, b);
    assert_eq!((a, b), (0, 1));
    assert_eq!(g.outgoing_deps("one.rs", "one.rs"), vec!["two.rs"]);
    assert_eq!(g.breadth_first(0), vec![(0, 0), (1, 1)]);
}

#[test]
fn the_two_directions_agree() {
    let g = sample();
    let files = ["src/a.rs", "src/b.rs", "src/c.rs", "src/d.rs", "src/e.rs", "src/f.rs"];
    for a in files {
        for b in files {
            let out = g.outgoing_deps(a, a).iter().any(|p| p == b);
            let inc = g.incoming_deps(b, b).iter().any(|p| p == a);
            assert_eq!(out, inc, "{a} -> {b}");
        }
    }
}

#[test]
fn depth_one_is_exactly_the_direct_dependencies() {
    let g = sample();
    for (i, file) in ["src/a.rs", "src/b.rs", "src/d.rs"].iter().enumerate() {
        let start = g.lookup(file).unwrap();
        let mut at_one: Vec<String> = g
            .breadth_first(start)
            .iter()
            .filter(|&&(_, d)| d == 1)
            .map(|&(n, _)| g.file_node(n).path)
            .collect();
        let mut direct = g.outgoing_deps(file, file);
        at_one.sort();
        direct.sort();
        assert_eq!(at_one, direct, "case {i}");
    }
}

#[test]
fn impact_of_walks_and_judges_in_one_step() {
    let g = sample();
    let details: Vec<(Vec<String>, i64, i64)> =
        (0..6).map(|i| (vec![format!("f{i}:1")], i as i64, i as i64 + 10)).collect();
    let entries = g.impact_of("src/a.rs", "src/a.rs", 2, &details);
    let got: Vec<(String, u32, String)> =
        entries.iter().map(|e| (e.file_path.clone(), e.depth, e.severity.clone())).collect();
    assert_eq!(
        got,
        vec![
            ("src/c.rs".to_string(), 1, "warning".to_string()),
            ("src/b.rs".to_string(), 1, "warning".to_string()),
            ("src/d.rs".to_string(), 2, "info".to_string()),
        ]
    );
    assert_eq!(entries[0].functions, vec!["f2:1"]);
    assert_eq!((entries[2].start_line, entries[2].end_line), (3, 13));
    assert!(g.impact_of("nope.rs", "nope.rs", 2, &details).is_empty());
}

#[test]
fn simple_paths_start_and_end_at_the_files() {
    let g = sample();
    for p in g.find_graph_path("src/a.rs", "src/a.rs", "src/e.rs", "src/e.rs", 10, 10) {
        assert_eq!(p.first().map(|s| s.as_str()), Some("src/a.rs"));
        assert_eq!(p.last().map(|s| s.as_str()), Some("src/e.rs"));
        assert!(p.len() >= 2 && p.len() <= 12);
    }
}
