use ozymem::dashboard::{
    hits_fit_in, kept_positions, log_tail, memory_stats, source_base_name, symbol_of_id, visible_records, ActiveTab, DashAction, DashKey,
    DashboardState,
};
use ozymem::vectors::VectorRecord;

fn rec(id: &str, text: &str, source: &str, category: &str, schema: u32, hits: i64) -> VectorRecord {
    VectorRecord {
        id: id.to_string(),
        text: text.to_string(),
        source_path: source.to_string(),
        category: category.to_string(),
        project: "demo".to_string(),
        schema_version: schema,
        hit_count: hits,
    }
}

fn sample() -> Vec<VectorRecord> {
    vec![
        rec("src/auth.rs::login", "Login checks the token", "src/auth.rs", "Lesson", 1, 3),
        rec("src/db.rs::open", "Open uses WAL", "src/db.rs", "fact", 1, 2),
        rec("old::thing", "legacy", "src/old.rs", "context", 0, 5),
        rec("notes::auth", "AUTH flow", "docs/notes.md", "CONTEXT", 1, 0),
    ]
}

#[test]
fn the_list_shows_current_schema_and_matches_the_search() {
    let records = sample();
    assert_eq!(visible_records(&records, ""), vec![0, 1, 3]);
    assert_eq!(visible_records(&records, "auth"), vec![0, 3]);
    assert_eq!(visible_records(&records, "WAL"), vec![1]);
    assert_eq!(visible_records(&records, "legacy"), Vec::<usize>::new());
}

#[test]
fn searching_edits_then_applies_the_query() {
    let records = sample();
    let mut st = DashboardState::new();
    assert_eq!(st.on_key(DashKey::Char('s'), &records, 0), DashAction::Nothing);
    assert!(st.input_mode);
    assert_eq!(st.status_message, "Escribe para buscar...");
    st.on_key(DashKey::Char('a'), &records, 0);
    st.on_key(DashKey::Char('u'), &records, 0);
    st.on_key(DashKey::Char('x'), &records, 0);
    st.on_key(DashKey::Backspace, &records, 0);
    assert_eq!(st.search_query, "au");
    st.selected_index = 1;
    st.on_key(DashKey::Enter, &records, 0);
    assert!(!st.input_mode);
    assert_eq!(st.selected_index, 0);
    assert_eq!(st.status_message, "Busqueda aplicada: 'au'");
    assert_eq!(st.list_title(2), " Busqueda: 'au' (2) ");
}

#[test]
fn tabs_and_projects_ask_for_status_and_logs() {
    let records = sample();
    let mut st = DashboardState::new();
    assert_eq!(st.on_key(DashKey::Tab, &records, 3), DashAction::RefreshStatus);
    assert_eq!(st.active_tab, ActiveTab::SystemStatus);
    assert_eq!(st.status_message, "Pestana activa: SystemStatus");
    assert_eq!(st.on_key(DashKey::Down, &records, 3), DashAction::LoadLogs);
    assert_eq!(st.on_key(DashKey::Down, &records, 3), DashAction::LoadLogs);
    assert_eq!(st.on_key(DashKey::Down, &records, 3), DashAction::Nothing);
    assert_eq!(st.selected_project_idx, 2);
    assert_eq!(st.on_key(DashKey::Char('r'), &records, 3), DashAction::RefreshStatus);
    assert_eq!(st.status_message, "Monitoreo y logs actualizados.");
    assert_eq!(st.on_key(DashKey::Tab, &records, 3), DashAction::Nothing);
    assert_eq!(st.status_message, "Pestana activa: Memories");
    assert_eq!(st.on_key(DashKey::Char('3'), &records, 3), DashAction::Nothing);
    assert_eq!(st.status_message, "Graph PRs no disponible en modo local.");
    assert_eq!(st.on_key(DashKey::Char('q'), &records, 3), DashAction::Quit);
    assert_eq!(st.on_key(DashKey::Esc, &records, 3), DashAction::Quit);
}

#[test]
fn forgetting_and_pruning_go_through_the_caller() {
    let records = sample();
    let mut st = DashboardState::new();
    st.on_key(DashKey::Down, &records, 0);
    assert_eq!(st.selected_index, 1);
    assert_eq!(
        st.on_key(DashKey::Char('f'), &records, 0),
        DashAction::Forget("src/db.rs::open".to_string())
    );
    st.after_forget("src/db.rs::open", true);
    assert_eq!(st.status_message, "Olvidado: src/db.rs::open");
    assert_eq!(kept_positions(&records, &["src/db.rs::open".to_string()]), vec![0, 2, 3]);

    assert_eq!(st.on_key(DashKey::Char('p'), &records, 0), DashAction::FindOrphans);
    st.orphans_found(Vec::new());
    assert_eq!(st.status_message, "No se detectaron recuerdos huerfanos.");
    assert!(!st.prune_confirm);
    st.orphans_found(vec!["old::thing".to_string()]);
    assert!(st.prune_confirm);
    assert_eq!(st.on_key(DashKey::Char('Y'), &records, 0), DashAction::ApplyPrune);
    assert!(!st.prune_confirm);
    st.after_prune(true);
    assert_eq!(st.status_message, "Depuracion ejecutada. 1 recuerdos eliminados.");
    st.orphans_found(vec!["old::thing".to_string()]);
    assert_eq!(st.on_key(DashKey::Enter, &records, 0), DashAction::Nothing);
    assert_eq!(st.status_message, "Depuracion cancelada.");
}

#[test]
fn the_selection_stays_on_the_list() {
    let records = sample();
    let mut st = DashboardState::new();
    st.selected_index = 7;
    st.clamp_selection(&records);
    assert_eq!(st.selected_index, 2);
    st.on_key(DashKey::Char('.'), &records, 0);
    st.on_key(DashKey::Char('.'), &records, 0);
    st.on_key(DashKey::Char(','), &records, 0);
    assert_eq!(st.scroll_offset, 1);
    st.on_key(DashKey::Up, &records, 0);
    assert_eq!(st.selected_index, 1);
    assert_eq!(st.scroll_offset, 0);
}

#[test]
fn figures_count_categories_up_to_case() {
    let s = memory_stats(&sample());
    assert_eq!(s.total, 4);
    assert_eq!(s.lessons, 1);
    assert_eq!(s.facts, 1);
    assert_eq!(s.contexts, 2);
    assert_eq!(s.total_hits, 10);
}

#[test]
fn the_log_tail_keeps_the_last_fifty_lines() {
    let content: String = (1..=60).map(|i| format!("line {}\n", i)).collect();
    let tail = log_tail(&content);
    assert_eq!(tail.len(), 50);
    assert_eq!(tail[0], "line 11");
    assert_eq!(tail[49], "line 60");
    assert_eq!(log_tail("a\r\nb"), vec!["a".to_string(), "b".to_string()]);
}

#[test]
fn list_rows_name_the_symbol_and_the_file() {
    assert_eq!(symbol_of_id("src/auth.rs::login"), "login");
    assert_eq!(symbol_of_id("mod::Type::method"), "method");
    assert_eq!(symbol_of_id("plain"), "plain");
    assert_eq!(symbol_of_id("a:::b"), ":b");
    assert_eq!(symbol_of_id("x::"), "");
    assert_eq!(source_base_name("src/auth.rs"), "auth.rs");
    assert_eq!(source_base_name(r"C:\proj\db.rs"), "db.rs");
    assert_eq!(source_base_name(""), "");
}

#[test]
fn keys_never_move_the_selection_off_the_list() {
    let records = sample();
    let shown = visible_records(&records, "").len();
    let mut st = DashboardState::new();
    let keys = [
        DashKey::Down, DashKey::Down, DashKey::Down, DashKey::Down, DashKey::Char('s'),
        DashKey::Char('z'), DashKey::Enter, DashKey::Up, DashKey::Up, DashKey::Tab, DashKey::Down,
    ];
    for k in keys {
        st.on_key(k, &records, 2);
        assert!(st.selected_index < shown);
        assert!(st.selected_project_idx < 2);
    }
}

#[test]
fn hit_totals_are_checked_before_the_stats() {
    let ok = vec![rec("a", "t", "s", "fact", 1, 5), rec("b", "t", "s", "lesson", 1, -2)];
    assert!(hits_fit_in(&ok));
    let over = vec![rec("a", "t", "s", "fact", 1, i64::MAX), rec("b", "t", "s", "fact", 1, 1)];
    assert!(!hits_fit_in(&over));
}
