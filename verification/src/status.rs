//! The status report: its JSON form, the rows of the watcher table and of
//! the project list.

use vstd::prelude::*;
use crate::digest::{decimal_number, decimal_of_u64};
use crate::registry::ProjectStatus;
use crate::text::{chars_of, push_all, push_char, push_str, str_eq};

verus! {

broadcast use vstd::string::group_string_axioms;

/// The storage part of the JSON status.
#[derive(Debug)]
pub struct DatabaseJsonOutput {
    pub status: &'static str,
    pub uri: String,
}

/// The graph counts of the JSON status.
#[derive(Debug)]
pub struct StatusMetricsJson {
    pub files_indexed: i64,
    pub functions_mapped: i64,
    pub engrams_formed: i64,
}

/// The JSON status report.
#[derive(Debug)]
pub struct StatusJsonOutput {
    pub database: DatabaseJsonOutput,
    pub metrics: StatusMetricsJson,
}

/// The JSON status of an active database at `uri` with the given counts.
pub fn status_json(uri: String, files: i64, functions: i64, engrams: i64) -> (r: StatusJsonOutput)
    ensures
        r.database.status@ == "ACTIVE"@,
        r.database.uri@ == uri@,
        r.metrics.files_indexed == files,
        r.metrics.functions_mapped == functions,
        r.metrics.engrams_formed == engrams,
{
    StatusJsonOutput {
        database: DatabaseJsonOutput { status: "ACTIVE", uri },
        metrics: StatusMetricsJson {
            files_indexed: files,
            functions_mapped: functions,
            engrams_formed: engrams,
        },
    }
}

/// `ACTIVO (PID: n)`.
pub open spec fn active_with_pid(pid: u32) -> Seq<char> {
    "ACTIVO (PID: "@ + decimal_number(pid as nat) + ")"@
}

fn active_text(pid: u32) -> (r: String)
    ensures
        r@ == active_with_pid(pid),
{
    let mut r = "ACTIVO (PID: ".to_owned();
    push_all(&mut r, &decimal_of_u64(pid as u64));
    push_str(&mut r, ")");
    r
}

/// The state a project's watcher is shown in.
pub open spec fn watcher_state(status: ProjectStatus, pid: Option<u32>) -> Seq<char> {
    match status {
        ProjectStatus::Active => match pid {
            Some(p) => active_with_pid(p),
            None => "ACTIVO"@,
        },
        ProjectStatus::Sleeping => "SUSPENDIDO"@,
        ProjectStatus::Scanning => "ESCANEO"@,
    }
}

/// The state column of a project's row.
pub fn watcher_state_text(status: ProjectStatus, pid: Option<u32>) -> (r: String)
    ensures
        r@ == watcher_state(status, pid),
{
    match status {
        ProjectStatus::Active => match pid {
            Some(p) => active_text(p),
            None => "ACTIVO".to_owned(),
        },
        ProjectStatus::Sleeping => "SUSPENDIDO".to_owned(),
        ProjectStatus::Scanning => "ESCANEO".to_owned(),
    }
}

/// The log column of a project's row: the summary of its watcher log, except
/// that a sleeping project whose watcher never started reads as suspended.
pub open spec fn watcher_log(summary: Seq<char>, status: ProjectStatus) -> Seq<char> {
    if summary == "Watcher no inicializado."@ && status == ProjectStatus::Sleeping {
        "Suspendido en modo Fluido."@
    } else {
        summary
    }
}

/// The log column of a project's row, from the summary of its log.
pub fn watcher_log_text(summary: String, status: ProjectStatus) -> (r: String)
    ensures
        r@ == watcher_log(summary@, status),
{
    if str_eq(summary.as_str(), "Watcher no inicializado.") && status == ProjectStatus::Sleeping {
        "Suspendido en modo Fluido.".to_owned()
    } else {
        summary
    }
}

/// What is known of the MCP server's process.
pub enum McpProcess {
    /// There is no pid file, or it holds no number.
    Unknown,
    /// The recorded process is running.
    Alive(u32),
    /// The recorded process is gone.
    Dead,
}

/// The state and log columns of the MCP server's row, given its process and
/// the summary of its log.
pub open spec fn mcp_columns(p: McpProcess, summary: Seq<char>) -> (Seq<char>, Seq<char>) {
    match p {
        McpProcess::Unknown => ("INACTIVO"@, "Servidor no inicializado."@),
        McpProcess::Alive(pid) => (active_with_pid(pid), summary),
        McpProcess::Dead => (
            "TUMBADO"@,
            if summary == "Watcher no inicializado."@ || summary == "Bitacora vacia."@ || summary
                == "Servidor no inicializado."@ {
                "Proceso terminado inesperadamente."@
            } else {
                "Error: "@ + summary
            },
        ),
    }
}

/// The state and log columns of the MCP server's row.
pub fn mcp_row_columns(p: McpProcess, summary: String) -> (r: (String, String))
    ensures
        (r.0@, r.1@) == mcp_columns(p, summary@),
{
    match p {
        McpProcess::Unknown => ("INACTIVO".to_owned(), "Servidor no inicializado.".to_owned()),
        McpProcess::Alive(pid) => (active_text(pid), summary),
        McpProcess::Dead => {
            let s = summary.as_str();
            let text = if str_eq(s, "Watcher no inicializado.") || str_eq(s, "Bitacora vacia.")
                || str_eq(s, "Servidor no inicializado.") {
                "Proceso terminado inesperadamente.".to_owned()
            } else {
                let mut t = "Error: ".to_owned();
                push_str(&mut t, s);
                t
            };
            ("TUMBADO".to_owned(), text)
        },
    }
}

/// `s` padded with spaces to `width` characters, as `{:<width}` prints it.
pub open spec fn padded(s: Seq<char>, width: nat) -> Seq<char> {
    if s.len() >= width {
        s
    } else {
        s + Seq::new((width - s.len()) as nat, |i: int| ' ')
    }
}

/// A row of the watcher table.
pub open spec fn table_row(a: Seq<char>, b: Seq<char>, c: Seq<char>, d: Seq<char>) -> Seq<char> {
    "| "@ + padded(a, 15) + " | "@ + padded(b, 40) + " | "@ + padded(c, 21) + " | "@ + padded(d, 59)
        + " |"@
}

/// Appends `t` padded to `width` characters.
fn push_padded(r: &mut String, t: &str, width: usize)
    ensures
        final(r)@ == old(r)@ + padded(t@, width as nat),
{
    let v = chars_of(t);
    push_all(r, &v);
    let mut n = v.len();
    let ghost base = old(r)@ + t@;
    while n < width
        invariant
            v@ == t@,
            v@.len() <= n <= width || (n == v@.len() && n >= width),
            r@ == base + Seq::new((n - v@.len()) as nat, |i: int| ' '),
        decreases width - n,
    {
        push_char(r, ' ');
        assert(Seq::new((n + 1 - v@.len()) as nat, |i: int| ' ') =~= Seq::new(
            (n - v@.len()) as nat,
            |i: int| ' ',
        ).push(' '));
        n += 1;
    }
    assert(r@ =~= old(r)@ + padded(t@, width as nat));
}

/// A row of the watcher table: the project name, its path, the watcher's
/// state and its last log line, each padded to its column.
pub fn status_row(name: &str, path: &str, state: &str, log: &str) -> (r: String)
    ensures
        r@ == table_row(name@, path@, state@, log@),
{
    let mut r = "| ".to_owned();
    push_padded(&mut r, name, 15);
    push_str(&mut r, " | ");
    push_padded(&mut r, path, 40);
    push_str(&mut r, " | ");
    push_padded(&mut r, state, 21);
    push_str(&mut r, " | ");
    push_padded(&mut r, log, 59);
    push_str(&mut r, " |");
    r
}

/// A row of the project list: the name and the registered path, each padded
/// to its column.
pub open spec fn list_row(name: Seq<char>, path: Seq<char>) -> Seq<char> {
    "| "@ + padded(name, 25) + " | "@ + padded(path, 58) + " |"@
}

/// A row of the project list.
pub fn project_list_row(name: &str, path: &str) -> (r: String)
    ensures
        r@ == list_row(name@, path@),
{
    let mut r = "| ".to_owned();
    push_padded(&mut r, name, 25);
    push_str(&mut r, " | ");
    push_padded(&mut r, path, 58);
    push_str(&mut r, " |");
    r
}

} // verus!
