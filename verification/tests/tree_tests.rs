use ozymem::tree::{
    load_tree, render_trace_node, render_tree_node, FileGraphContext, GraphEntry, StoredFunction, TreeNode,
};

fn leaf(path: &str, cyclic: bool) -> TreeNode {
    TreeNode {
        path: path.to_string(),
        context: None,
        functions: Vec::new(),
        dependencies: Vec::new(),
        truncated: false,
        cyclic,
    }
}

#[test]
fn render_trace_node_handles_cycles() {
    let node = TreeNode {
        path: "target.rs".to_string(),
        context: None,
        functions: Vec::new(),
        dependencies: vec![leaf("dependent.rs", true)],
        truncated: false,
        cyclic: false,
    };
    let lines = render_trace_node(&node, "", true, true);
    assert_eq!(
        lines,
        vec![
            "File: target.rs (Target)",
            "├── Functions",
            "│   └── (none)",
            "└── Incoming Dependencies",
            "    └── [IMPACTED_BY] File: dependent.rs (already listed)",
        ]
    );
}

#[test]
fn render_tree_node_lists_functions_and_children() {
    let child = TreeNode {
        path: "b.rs".to_string(),
        context: None,
        functions: vec![],
        dependencies: vec![],
        truncated: true,
        cyclic: false,
    };
    let node = TreeNode {
        path: "a.rs".to_string(),
        context: None,
        functions: vec![
            StoredFunction {
                name: "run".to_string(),
                kind: "function".to_string(),
                start_line: 3,
                end_line: 10,
                strategy: "ast".to_string(),
            },
            StoredFunction {
                name: "Cfg".to_string(),
                kind: "class".to_string(),
                start_line: 12,
                end_line: -1,
                strategy: "text".to_string(),
            },
        ],
        dependencies: vec![child, leaf("c.rs", false)],
        truncated: false,
        cyclic: false,
    };
    let lines = render_tree_node(&node, "", true, true);
    assert_eq!(
        lines,
        vec![
            "File: a.rs",
            "├── Functions",
            "│   ├── [MEMBER: FUNCTION] run (lines 3-10) via ast",
            "│   └── [MEMBER: CLASS] Cfg (lines 12--1) via text",
            "└── Dependencies",
            "    ├── [DEPENDS_ON] File: b.rs",
            "    │   ├── Functions",
            "    │   │   └── (none)",
            "    │   └── Dependencies",
            "    │       └── (depth limit reached)",
            "    └── [DEPENDS_ON] File: c.rs",
            "        └── Functions",
            "            └── (none)",
            "        └── Dependencies",
            "            └── (none)",
        ]
    );
}

fn entry(path: &str, related: &[&str], functions: Vec<StoredFunction>) -> GraphEntry {
    GraphEntry {
        path: path.to_string(),
        context: Some(FileGraphContext {
            file_path: path.to_string(),
            language: "rust".to_string(),
            functions,
        }),
        related: related.iter().map(|r| r.to_string()).collect(),
    }
}

fn cyclic_graph() -> Vec<GraphEntry> {
    let f = StoredFunction {
        name: "main".to_string(),
        kind: "Function".to_string(),
        start_line: 1,
        end_line: 3,
        strategy: "NativeAST".to_string(),
    };
    vec![
        entry("a.rs", &["b.rs", "c.rs"], vec![f]),
        entry("b.rs", &["c.rs"], Vec::new()),
        entry("c.rs", &["a.rs"], Vec::new()),
    ]
}

#[test]
fn loading_marks_files_met_again_as_repeats() {
    let t = load_tree(&cyclic_graph(), "a.rs", 3);
    assert_eq!(t.path, "a.rs");
    assert!(!t.cyclic && !t.truncated);
    assert_eq!(t.functions.len(), 1);
    assert_eq!(t.dependencies.len(), 2);
    let b = &t.dependencies[0];
    assert_eq!(b.path, "b.rs");
    assert!(!b.cyclic);
    assert_eq!(b.dependencies.len(), 1);
    let c = &b.dependencies[0];
    assert_eq!(c.path, "c.rs");
    assert!(!c.cyclic);
    assert_eq!(c.dependencies.len(), 1);
    assert!(c.dependencies[0].cyclic);
    assert_eq!(c.dependencies[0].path, "a.rs");
    let c_again = &t.dependencies[1];
    assert_eq!(c_again.path, "c.rs");
    assert!(c_again.cyclic);
    assert!(c_again.context.is_some());
    assert!(c_again.dependencies.is_empty());
}

#[test]
fn loading_stops_at_the_depth_limit() {
    let g = cyclic_graph();
    let t = load_tree(&g, "a.rs", 0);
    assert!(t.truncated);
    assert!(t.dependencies.is_empty());
    let one = load_tree(&g, "a.rs", 1);
    assert_eq!(one.dependencies.len(), 2);
    assert!(one.dependencies[0].truncated);
    assert!(one.dependencies[1].cyclic == false && one.dependencies[1].truncated);
    let lines = render_tree_node(&t, "", true, true);
    assert_eq!(
        lines,
        vec![
            "File: a.rs",
            "├── Functions",
            "│   └── [MEMBER: FUNCTION] main (lines 1-3) via NativeAST",
            "└── Dependencies",
            "    └── (depth limit reached)",
        ]
    );
}

#[test]
fn unindexed_files_load_empty() {
    let t = load_tree(&cyclic_graph(), "z.rs", 2);
    assert!(t.context.is_none());
    assert!(t.functions.is_empty() && t.dependencies.is_empty());
    assert!(!t.truncated && !t.cyclic);
}

fn levels(t: &TreeNode) -> u32 {
    1 + t.dependencies.iter().map(levels).max().unwrap_or(0)
}

#[test]
fn loaded_trees_stay_within_the_depth_limit() {
    let g = cyclic_graph();
    for depth in 0..5u32 {
        let t = load_tree(&g, "a.rs", depth);
        assert!(levels(&t) <= depth + 1);
    }
    assert_eq!(levels(&load_tree(&g, "a.rs", 5)), 4);
}
