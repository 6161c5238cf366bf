use ozymem::registry::ProjectStatus;
use ozymem::status::{
    mcp_row_columns, status_json, status_row, watcher_log_text, watcher_state_text, McpProcess, project_list_row};

#[test]
fn watcher_columns() {
    assert_eq!(watcher_state_text(ProjectStatus::Active, Some(42)), "ACTIVO (PID: 42)");
    assert_eq!(watcher_state_text(ProjectStatus::Active, None), "ACTIVO");
    assert_eq!(watcher_state_text(ProjectStatus::Sleeping, Some(1)), "SUSPENDIDO");
    assert_eq!(watcher_state_text(ProjectStatus::Scanning, None), "ESCANEO");
    assert_eq!(
        watcher_log_text("Watcher no inicializado.".to_string(), ProjectStatus::Sleeping),
        "Suspendido en modo Fluido."
    );
    assert_eq!(
        watcher_log_text("Watcher no inicializado.".to_string(), ProjectStatus::Active),
        "Watcher no inicializado."
    );
}

#[test]
fn mcp_columns() {
    assert_eq!(
        mcp_row_columns(McpProcess::Unknown, "x".to_string()),
        ("INACTIVO".to_string(), "Servidor no inicializado.".to_string())
    );
    assert_eq!(
        mcp_row_columns(McpProcess::Alive(7), "ok".to_string()),
        ("ACTIVO (PID: 7)".to_string(), "ok".to_string())
    );
    assert_eq!(
        mcp_row_columns(McpProcess::Dead, "Bitacora vacia.".to_string()).1,
        "Proceso terminado inesperadamente."
    );
    assert_eq!(mcp_row_columns(McpProcess::Dead, "boom".to_string()).1, "Error: boom");
}

#[test]
fn rows_are_padded_like_format() {
    let row = status_row("api", "C:/api", "ACTIVO", "listo");
    let expected = format!("| {:<15} | {:<40} | {:<21} | {:<59} |", "api", "C:/api", "ACTIVO", "listo");
    assert_eq!(row, expected);
    let long = "n".repeat(20);
    assert_eq!(
        status_row(&long, "ñandú", "", ""),
        format!("| {:<15} | {:<40} | {:<21} | {:<59} |", long, "ñandú", "", "")
    );
    let j = status_json("sqlite://x".to_string(), 1, 2, 3);
    assert_eq!(j.database.status, "ACTIVE");
    assert_eq!(j.metrics.engrams_formed, 3);
}

#[test]
fn project_list_rows_are_padded_like_format() {
    assert_eq!(
        project_list_row("api", "/srv/api"),
        format!("| {:<25} | {:<58} |", "api", "/srv/api")
    );
    let long = "p".repeat(70);
    assert_eq!(project_list_row("x", &long), format!("| {:<25} | {:<58} |", "x", long));
}
