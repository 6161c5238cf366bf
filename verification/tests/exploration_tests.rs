use ozymem::exploration::{
    diagnose_rows, diagnosis_fits, node_depth, pick_trajectory, TrajectoryRow, total_decision_steps, truncate_observation, MAX_OBSERVATION_BYTES,
};

#[test]
fn short_observations_are_kept_whole() {
    assert_eq!(truncate_observation("ran cargo test".to_string()), "ran cargo test");
    let exact = "a".repeat(MAX_OBSERVATION_BYTES);
    assert_eq!(truncate_observation(exact.clone()), exact);
}

#[test]
fn long_observations_are_cut_at_32_kib_with_a_note() {
    let long = "b".repeat(MAX_OBSERVATION_BYTES + 10);
    let kept = truncate_observation(long);
    assert_eq!(
        kept,
        format!("{}\n...[truncated to 32KB by Ozymem Dream-RSI guard]", "b".repeat(32768))
    );
}

#[test]
fn depth_follows_the_parent() {
    assert_eq!(node_depth(None), 0);
    assert_eq!(node_depth(Some(0)), 1);
    assert_eq!(node_depth(Some(4)), 5);
}

#[test]
fn a_cut_inside_a_character_moves_back_to_its_start() {
    let mut long = "a".repeat(MAX_OBSERVATION_BYTES - 1);
    long.push_str("éééé");
    let kept = truncate_observation(long);
    let body = kept.strip_suffix("\n...[truncated to 32KB by Ozymem Dream-RSI guard]").unwrap();
    assert_eq!(body.len(), MAX_OBSERVATION_BYTES - 1);
    assert!(body.chars().all(|c| c == 'a'));
}

#[test]
fn a_round_runs_on_the_named_trajectory_or_the_newest() {
    let ids = vec!["t3".to_string(), "t2".to_string(), "t1".to_string()];
    assert_eq!(pick_trajectory(&ids, None), Some(0));
    assert_eq!(pick_trajectory(&ids, Some("t1")), Some(2));
    assert_eq!(pick_trajectory(&ids, Some("t9")), None);
    assert_eq!(pick_trajectory(&Vec::new(), None), None);
}

#[test]
fn decision_steps_are_summed_over_trajectories() {
    assert_eq!(total_decision_steps(&vec![3, 4, 10]), 17);
    assert_eq!(total_decision_steps(&Vec::new()), 0);
}


fn step(id: &str, depth: i64, tokens: i64, latency: i64, solution: bool, pruned: bool) -> TrajectoryRow {
    TrajectoryRow { id: id.to_string(), depth, cost_tokens: tokens, latency_ms: latency, is_solution: solution, is_pruned: pruned }
}

#[test]
fn a_trajectory_is_diagnosed_from_its_steps() {
    let rows = vec![
        step("n1", 0, 500, 1200, false, false),
        step("n2", 1, 2500, 800, false, true),
        step("n3", 2, 100, 4000, true, false),
        step("n4", 1, 10, 10, false, true),
    ];
    assert!(diagnosis_fits(&rows));
    let d = diagnose_rows(&rows);
    assert_eq!(d.total_steps, 4);
    assert_eq!(d.max_depth, 2);
    assert_eq!(d.total_tokens, 3110);
    assert_eq!(d.total_latency_ms, 6010);
    assert!(d.has_solution);
    assert_eq!(d.bottlenecks, vec!["n2 (800 ms, 2500 tokens)".to_string(), "n3 (4000 ms, 100 tokens)".to_string()]);
    assert_eq!(d.pruning_opportunities, vec!["n2".to_string(), "n4".to_string()]);
}

#[test]
fn an_empty_trajectory_has_a_zero_diagnosis() {
    let d = diagnose_rows(&Vec::new());
    assert_eq!((d.total_steps, d.max_depth, d.total_tokens, d.total_latency_ms, d.has_solution), (0, 0, 0, 0, false));
    assert!(d.bottlenecks.is_empty() && d.pruning_opportunities.is_empty());
    let negative = vec![step("a", -3, 0, 0, false, false), step("b", -5, 0, 0, false, false)];
    assert_eq!(diagnose_rows(&negative).max_depth, -3);
    assert!(!diagnosis_fits(&vec![step("a", 0, i64::MAX, 0, false, false), step("b", 0, 1, 0, false, false)]));
}
