//! The terminal dashboard's decisions: which stored memories it lists, the
//! figures it shows, and how each key press changes what it shows and what
//! it asks to be done (saving, reloading, pinging the backend, reading logs).
//! Drawing, reading keys and doing what is asked stay with the caller.

use vstd::prelude::*;
use crate::digest::{decimal_of_u64, decimal_number};
use crate::text::{
    ascii_lower_chars, ascii_lower_seq, chars_of, contains, lines_of, lower_of, occurs_in,
    push_all, push_char, push_str, string_of, text_lines, to_lower,
};
use crate::paths::is_word;
use crate::vectors::VectorRecord;

verus! {

broadcast use vstd::string::group_string_axioms;

/// `needle` (lower-cased) occurs in `field` lower-cased.
pub open spec fn field_hit(field: Seq<char>, needle: Seq<char>) -> bool {
    occurs_in(lower_of(field), lower_of(needle))
}

/// A memory is listed when it has the current schema and, if there is a
/// search, the search occurs (case-insensitively) in its text, source,
/// category or id.
pub open spec fn is_listed(r: VectorRecord, query: Seq<char>) -> bool {
    &&& r.schema_version == 1
    &&& (query.len() == 0 || field_hit(r.text@, query) || field_hit(r.source_path@, query)
        || field_hit(r.category@, query) || field_hit(r.id@, query))
}

/// The positions of the listed memories among the first `n` records.
pub open spec fn listed_upto(records: Seq<VectorRecord>, query: Seq<char>, n: int) -> Seq<usize>
    decreases n,
{
    if n <= 0 {
        Seq::empty()
    } else if is_listed(records[n - 1], query) {
        listed_upto(records, query, n - 1).push((n - 1) as usize)
    } else {
        listed_upto(records, query, n - 1)
    }
}

/// The positions of the listed memories, in record order.
pub open spec fn listed(records: Seq<VectorRecord>, query: Seq<char>) -> Seq<usize> {
    listed_upto(records, query, records.len() as int)
}

fn lowered(s: &str) -> (r: Vec<char>)
    ensures
        r@ == lower_of(s@),
{
    let l = to_lower(s);
    chars_of(l.as_str())
}

/// The positions (in `records`) of the memories the list shows for the
/// search `query`, in record order.
pub fn visible_records(records: &[VectorRecord], query: &str) -> (r: Vec<usize>)
    ensures
        r@ == listed(records@, query@),
{
    let q = lowered(query);
    let empty = query.is_empty();
    let mut r: Vec<usize> = Vec::new();
    let mut i: usize = 0;
    while i < records.len()
        invariant
            i <= records@.len(),
            q@ == lower_of(query@),
            empty == (query@.len() == 0),
            r@ == listed_upto(records@, query@, i as int),
        decreases records@.len() - i,
    {
        let rec = &records[i];
        if rec.schema_version == 1 {
            let hit = empty || contains(&lowered(rec.text.as_str()), &q) || contains(
                &lowered(rec.source_path.as_str()),
                &q,
            ) || contains(&lowered(rec.category.as_str()), &q) || contains(
                &lowered(rec.id.as_str()),
                &q,
            );
            if hit {
                r.push(i);
            }
        }
        i += 1;
    }
    r
}

/// The three tabs of the dashboard.
#[derive(Debug, Clone, Copy, PartialEq, Eq, Structural)]
pub enum ActiveTab {
    Memories,
    SystemStatus,
    GraphPRs,
}

/// The tab's name as the status line shows it.
pub open spec fn tab_name(t: ActiveTab) -> Seq<char> {
    match t {
        ActiveTab::Memories => "Memories"@,
        ActiveTab::SystemStatus => "SystemStatus"@,
        ActiveTab::GraphPRs => "GraphPRs"@,
    }
}

impl ActiveTab {
    /// The tab's name as the status line shows it.
    pub fn name(&self) -> (r: &'static str)
        ensures
            r@ == tab_name(*self),
    {
        match self {
            ActiveTab::Memories => "Memories",
            ActiveTab::SystemStatus => "SystemStatus",
            ActiveTab::GraphPRs => "GraphPRs",
        }
    }

    /// The position of the tab in the tab bar.
    pub fn index(&self) -> (r: usize)
        ensures
            r == match *self {
                ActiveTab::Memories => 0usize,
                ActiveTab::SystemStatus => 1usize,
                ActiveTab::GraphPRs => 2usize,
            },
    {
        match self {
            ActiveTab::Memories => 0,
            ActiveTab::SystemStatus => 1,
            ActiveTab::GraphPRs => 2,
        }
    }
}

/// The tab that `Tab` moves to: the status tab from the memories, the
/// memories from either other tab.
pub open spec fn next_tab(t: ActiveTab) -> ActiveTab {
    match t {
        ActiveTab::Memories => ActiveTab::SystemStatus,
        ActiveTab::SystemStatus => ActiveTab::Memories,
        ActiveTab::GraphPRs => ActiveTab::Memories,
    }
}

/// A key pressed on the dashboard.
#[derive(Debug, Clone, Copy, PartialEq, Eq, Structural)]
pub enum DashKey {
    Char(char),
    Enter,
    Esc,
    Backspace,
    Tab,
    Up,
    Down,
    Other,
}

/// What a key press asks the caller to do.
#[derive(Debug, Clone, PartialEq, Eq)]
pub enum DashAction {
    /// Nothing outside the dashboard's state.
    Nothing,
    /// Leave the dashboard.
    Quit,
    /// Remove the memories of the prune list and save (then `after_prune`).
    ApplyPrune,
    /// Remove the memory with this id and save (then `after_forget`).
    Forget(String),
    /// Read the memories again (then `after_reload` when they were read).
    Reload,
    /// Ping the backend, and read the selected project's log when there are
    /// projects.
    RefreshStatus,
    /// Read the selected project's log.
    LoadLogs,
    /// Find the memories whose source file is gone (then `orphans_found`).
    FindOrphans,
}

/// What a key press asks for, with the id of a memory to forget as text.
pub enum ActionView {
    Nothing,
    Quit,
    ApplyPrune,
    Forget(Seq<char>),
    Reload,
    RefreshStatus,
    LoadLogs,
    FindOrphans,
}

impl View for DashAction {
    type V = ActionView;

    open spec fn view(&self) -> ActionView {
        match self {
            DashAction::Nothing => ActionView::Nothing,
            DashAction::Quit => ActionView::Quit,
            DashAction::ApplyPrune => ActionView::ApplyPrune,
            DashAction::Forget(id) => ActionView::Forget(id@),
            DashAction::Reload => ActionView::Reload,
            DashAction::RefreshStatus => ActionView::RefreshStatus,
            DashAction::LoadLogs => ActionView::LoadLogs,
            DashAction::FindOrphans => ActionView::FindOrphans,
        }
    }
}

/// What the dashboard shows and remembers between key presses.
#[derive(Debug, Clone)]
pub struct DashboardState {
    pub active_tab: ActiveTab,
    pub selected_index: usize,
    pub scroll_offset: u16,
    pub search_query: String,
    pub input_mode: bool,
    pub prune_confirm: bool,
    pub prune_list: Vec<String>,
    pub selected_project_idx: usize,
    pub status_message: String,
}

/// The dashboard's state with its texts as character sequences.
#[verifier::ext_equal]
pub struct DashView {
    pub tab: ActiveTab,
    pub selected: usize,
    pub scroll: u16,
    pub query: Seq<char>,
    pub input_mode: bool,
    pub prune_confirm: bool,
    pub prune_list: Seq<Seq<char>>,
    pub project_idx: usize,
    pub message: Seq<char>,
}

impl View for DashboardState {
    type V = DashView;

    open spec fn view(&self) -> DashView {
        DashView {
            tab: self.active_tab,
            selected: self.selected_index,
            scroll: self.scroll_offset,
            query: self.search_query@,
            input_mode: self.input_mode,
            prune_confirm: self.prune_confirm,
            prune_list: self.prune_list@.map_values(|s: String| s@),
            project_idx: self.selected_project_idx,
            message: self.status_message@,
        }
    }
}

/// The greeting shown when the dashboard opens.
pub open spec fn welcome_message() -> Seq<char> {
    "Bienvenido a OzyMem Dashboard! Pulse 1, 2 o 3 para navegar por pestañas."@
}

impl DashboardState {
    /// The dashboard as it opens: the memories tab, nothing selected or
    /// searched, and the greeting.
    pub fn new() -> (r: DashboardState)
        ensures
            r@ == (DashView {
                tab: ActiveTab::Memories,
                selected: 0,
                scroll: 0,
                query: Seq::empty(),
                input_mode: false,
                prune_confirm: false,
                prune_list: Seq::empty(),
                project_idx: 0,
                message: welcome_message(),
            }),
    {
        let r = DashboardState {
            active_tab: ActiveTab::Memories,
            selected_index: 0,
            scroll_offset: 0,
            search_query: String::new(),
            input_mode: false,
            prune_confirm: false,
            prune_list: Vec::new(),
            selected_project_idx: 0,
            status_message: "Bienvenido a OzyMem Dashboard! Pulse 1, 2 o 3 para navegar por pestañas.".to_owned(),
        };
        assert(r@.prune_list =~= Seq::<Seq<char>>::empty());
        r
    }
}

/// The state with a new status message.
pub open spec fn with_message(s: DashView, m: Seq<char>) -> DashView {
    DashView { message: m, ..s }
}

/// The state and request after a key press, given how many memories the
/// list shows, the id of the selected one (if any) and how many projects
/// are configured.
pub open spec fn key_step(
    s: DashView,
    key: DashKey,
    listed_len: nat,
    selected_id: Option<Seq<char>>,
    projects: nat,
) -> (DashView, ActionView) {
    if s.prune_confirm {
        if key == DashKey::Char('y') || key == DashKey::Char('Y') {
            (DashView { prune_confirm: false, ..s }, ActionView::ApplyPrune)
        } else {
            (
                DashView { prune_confirm: false, message: "Depuracion cancelada."@, ..s },
                ActionView::Nothing,
            )
        }
    } else if s.input_mode {
        match key {
            DashKey::Enter => (
                DashView {
                    input_mode: false,
                    selected: 0,
                    message: "Busqueda aplicada: '"@ + s.query + "'"@,
                    ..s
                },
                ActionView::Nothing,
            ),
            DashKey::Esc => (
                DashView {
                    input_mode: false,
                    query: Seq::empty(),
                    message: "Busqueda cancelada."@,
                    ..s
                },
                ActionView::Nothing,
            ),
            DashKey::Backspace => (
                DashView {
                    query: if s.query.len() > 0 {
                        s.query.drop_last()
                    } else {
                        s.query
                    },
                    ..s
                },
                ActionView::Nothing,
            ),
            DashKey::Char(c) => (DashView { query: s.query.push(c), ..s }, ActionView::Nothing),
            _ => (s, ActionView::Nothing),
        }
    } else {
        match key {
            DashKey::Esc => (s, ActionView::Quit),
            DashKey::Tab => {
                let t = next_tab(s.tab);
                (
                    DashView { tab: t, message: "Pestana activa: "@ + tab_name(t), ..s },
                    if t == ActiveTab::SystemStatus {
                        ActionView::RefreshStatus
                    } else {
                        ActionView::Nothing
                    },
                )
            },
            DashKey::Up => match s.tab {
                ActiveTab::Memories => if s.selected > 0 {
                    (DashView { selected: (s.selected - 1) as usize, scroll: 0, ..s }, ActionView::Nothing)
                } else {
                    (s, ActionView::Nothing)
                },
                ActiveTab::SystemStatus => if s.project_idx > 0 {
                    (DashView { project_idx: (s.project_idx - 1) as usize, ..s }, ActionView::LoadLogs)
                } else {
                    (s, ActionView::Nothing)
                },
                ActiveTab::GraphPRs => (s, ActionView::Nothing),
            },
            DashKey::Down => match s.tab {
                ActiveTab::Memories => if s.selected + 1 < listed_len {
                    (DashView { selected: (s.selected + 1) as usize, scroll: 0, ..s }, ActionView::Nothing)
                } else {
                    (s, ActionView::Nothing)
                },
                ActiveTab::SystemStatus => if s.project_idx + 1 < projects {
                    (DashView { project_idx: (s.project_idx + 1) as usize, ..s }, ActionView::LoadLogs)
                } else {
                    (s, ActionView::Nothing)
                },
                ActiveTab::GraphPRs => (s, ActionView::Nothing),
            },
            DashKey::Char(c) => char_step(s, c, selected_id),
            _ => (s, ActionView::Nothing),
        }
    }
}

/// A character key outside the search box and the prune question.
pub open spec fn char_step(s: DashView, c: char, selected_id: Option<Seq<char>>) -> (
    DashView,
    ActionView,
) {
    let on_memories = s.tab == ActiveTab::Memories;
    if c == 'q' {
        (s, ActionView::Quit)
    } else if c == '1' {
        (
            DashView { tab: ActiveTab::Memories, message: "Pestana activa: Recuerdos"@, ..s },
            ActionView::Nothing,
        )
    } else if c == '2' {
        (
            DashView {
                tab: ActiveTab::SystemStatus,
                message: "Pestana activa: Monitoreo y Watchers"@,
                ..s
            },
            ActionView::RefreshStatus,
        )
    } else if c == '3' {
        (with_message(s, "Graph PRs no disponible en modo local."@), ActionView::Nothing)
    } else if c == 'r' || c == 'R' {
        match s.tab {
            ActiveTab::Memories => (s, ActionView::Reload),
            ActiveTab::SystemStatus => (
                with_message(s, "Monitoreo y logs actualizados."@),
                ActionView::RefreshStatus,
            ),
            ActiveTab::GraphPRs => (
                with_message(s, "Graph PRs no disponible en modo local."@),
                ActionView::Nothing,
            ),
        }
    } else if c == ',' {
        if on_memories && s.scroll > 0 {
            (DashView { scroll: (s.scroll - 1) as u16, ..s }, ActionView::Nothing)
        } else {
            (s, ActionView::Nothing)
        }
    } else if c == '.' {
        if on_memories {
            (DashView { scroll: (s.scroll + 1) as u16, ..s }, ActionView::Nothing)
        } else {
            (s, ActionView::Nothing)
        }
    } else if c == 's' || c == 'S' {
        if on_memories {
            (
                DashView {
                    input_mode: true,
                    query: Seq::empty(),
                    message: "Escribe para buscar..."@,
                    ..s
                },
                ActionView::Nothing,
            )
        } else {
            (s, ActionView::Nothing)
        }
    } else if c == 'f' || c == 'F' {
        match selected_id {
            Some(id) if on_memories => (s, ActionView::Forget(id)),
            _ => (s, ActionView::Nothing),
        }
    } else if c == 'p' || c == 'P' {
        if on_memories {
            (s, ActionView::FindOrphans)
        } else {
            (s, ActionView::Nothing)
        }
    } else if c == 'm' || c == 'M' {
        if s.tab == ActiveTab::GraphPRs {
            (with_message(s, "GPR merge no disponible en modo local."@), ActionView::Nothing)
        } else {
            (s, ActionView::Nothing)
        }
    } else {
        (s, ActionView::Nothing)
    }
}

/// The key would scroll the details past the largest offset.
pub open spec fn scrolls_past_end(s: DashView, key: DashKey) -> bool {
    &&& !s.prune_confirm
    &&& !s.input_mode
    &&& key == DashKey::Char('.')
    &&& s.tab == ActiveTab::Memories
    &&& s.scroll == u16::MAX
}

/// The id of the selected memory, when the selection is on the list.
pub open spec fn selected_id(records: Seq<VectorRecord>, shown: Seq<usize>, selected: usize) -> Option<
    Seq<char>,
> {
    if selected < shown.len() {
        Some(records[shown[selected as int] as int].id@)
    } else {
        None
    }
}

/// The positions `visible_records` gives are positions of `records`.
proof fn lemma_listed_in_range(records: Seq<VectorRecord>, query: Seq<char>, n: int)
    requires
        n <= records.len(),
        n <= usize::MAX,
    ensures
        forall|j: int| 0 <= j < listed_upto(records, query, n).len() ==> #[trigger] listed_upto(records, query, n)[j] < n,
    decreases n,
{
    if n > 0 {
        lemma_listed_in_range(records, query, n - 1);
        let prev = listed_upto(records, query, n - 1);
        if is_listed(records[n - 1], query) {
            assert forall|j: int| 0 <= j < prev.push((n - 1) as usize).len() implies #[trigger] prev.push((n - 1) as usize)[j] < n by {
                if j < prev.len() {
                    assert(prev.push((n - 1) as usize)[j] == prev[j]);
                }
            }
        }
    }
}

impl DashboardState {
    fn set_message(&mut self, m: &str)
        ensures
            final(self)@ == with_message(old(self)@, m@),
    {
        self.status_message = m.to_owned();
    }

    /// Handles one key press: changes what the dashboard shows and says what
    /// the caller has to do. `records` are the stored memories and
    /// `project_count` the number of configured projects.
    pub fn on_key(&mut self, key: DashKey, records: &[VectorRecord], project_count: usize) -> (r: DashAction)
        requires
            !scrolls_past_end(old(self)@, key),
        ensures
            final(self)@ == key_step(
                old(self)@,
                key,
                listed(records@, old(self)@.query).len(),
                selected_id(records@, listed(records@, old(self)@.query), old(self)@.selected),
                project_count as nat,
            ).0,
            r@ == key_step(
                old(self)@,
                key,
                listed(records@, old(self)@.query).len(),
                selected_id(records@, listed(records@, old(self)@.query), old(self)@.selected),
                project_count as nat,
            ).1,
    {
        if self.prune_confirm {
            self.prune_confirm = false;
            if key == DashKey::Char('y') || key == DashKey::Char('Y') {
                return DashAction::ApplyPrune;
            } else {
                self.set_message("Depuracion cancelada.");
                return DashAction::Nothing;
            }
        }
        if self.input_mode {
            match key {
                DashKey::Enter => {
                    self.input_mode = false;
                    self.selected_index = 0;
                    let mut m = "Busqueda aplicada: '".to_owned();
                    push_str(&mut m, self.search_query.as_str());
                    push_str(&mut m, "'");
                    self.status_message = m;
                },
                DashKey::Esc => {
                    self.input_mode = false;
                    self.search_query = String::new();
                    self.set_message("Busqueda cancelada.");
                },
                DashKey::Backspace => {
                    let mut q = chars_of(self.search_query.as_str());
                    if q.len() > 0 {
                        q.pop();
                    }
                    self.search_query = string_of(&q);
                },
                DashKey::Char(c) => {
                    push_char(&mut self.search_query, c);
                },
                _ => {},
            }
            return DashAction::Nothing;
        }
        match key {
            DashKey::Esc => DashAction::Quit,
            DashKey::Tab => {
                let t = match self.active_tab {
                    ActiveTab::Memories => ActiveTab::SystemStatus,
                    ActiveTab::SystemStatus => ActiveTab::Memories,
                    ActiveTab::GraphPRs => ActiveTab::Memories,
                };
                self.active_tab = t;
                let mut m = "Pestana activa: ".to_owned();
                push_str(&mut m, t.name());
                self.status_message = m;
                if t == ActiveTab::SystemStatus {
                    DashAction::RefreshStatus
                } else {
                    DashAction::Nothing
                }
            },
            DashKey::Up => match self.active_tab {
                ActiveTab::Memories => {
                    if self.selected_index > 0 {
                        self.selected_index = self.selected_index - 1;
                        self.scroll_offset = 0;
                    }
                    DashAction::Nothing
                },
                ActiveTab::SystemStatus => {
                    if self.selected_project_idx > 0 {
                        self.selected_project_idx = self.selected_project_idx - 1;
                        DashAction::LoadLogs
                    } else {
                        DashAction::Nothing
                    }
                },
                ActiveTab::GraphPRs => DashAction::Nothing,
            },
            DashKey::Down => match self.active_tab {
                ActiveTab::Memories => {
                    let shown = visible_records(records, self.search_query.as_str());
                    if shown.len() > 0 && self.selected_index < shown.len() - 1 {
                        self.selected_index = self.selected_index + 1;
                        self.scroll_offset = 0;
                    }
                    DashAction::Nothing
                },
                ActiveTab::SystemStatus => {
                    if project_count > 0 && self.selected_project_idx < project_count - 1 {
                        self.selected_project_idx = self.selected_project_idx + 1;
                        DashAction::LoadLogs
                    } else {
                        DashAction::Nothing
                    }
                },
                ActiveTab::GraphPRs => DashAction::Nothing,
            },
            DashKey::Char(c) => self.on_char(c, records),
            _ => DashAction::Nothing,
        }
    }

    fn on_char(&mut self, c: char, records: &[VectorRecord]) -> (r: DashAction)
        requires
            !old(self).prune_confirm,
            !old(self).input_mode,
            !scrolls_past_end(old(self)@, DashKey::Char(c)),
        ensures
            final(self)@ == char_step(
                old(self)@,
                c,
                selected_id(records@, listed(records@, old(self)@.query), old(self)@.selected),
            ).0,
            r@ == char_step(
                old(self)@,
                c,
                selected_id(records@, listed(records@, old(self)@.query), old(self)@.selected),
            ).1,
    {
        let on_memories = self.active_tab == ActiveTab::Memories;
        if c == 'q' {
            DashAction::Quit
        } else if c == '1' {
            self.active_tab = ActiveTab::Memories;
            self.set_message("Pestana activa: Recuerdos");
            DashAction::Nothing
        } else if c == '2' {
            self.active_tab = ActiveTab::SystemStatus;
            self.set_message("Pestana activa: Monitoreo y Watchers");
            DashAction::RefreshStatus
        } else if c == '3' {
            self.set_message("Graph PRs no disponible en modo local.");
            DashAction::Nothing
        } else if c == 'r' || c == 'R' {
            match self.active_tab {
                ActiveTab::Memories => DashAction::Reload,
                ActiveTab::SystemStatus => {
                    self.set_message("Monitoreo y logs actualizados.");
                    DashAction::RefreshStatus
                },
                ActiveTab::GraphPRs => {
                    self.set_message("Graph PRs no disponible en modo local.");
                    DashAction::Nothing
                },
            }
        } else if c == ',' {
            if on_memories && self.scroll_offset > 0 {
                self.scroll_offset = self.scroll_offset - 1;
            }
            DashAction::Nothing
        } else if c == '.' {
            if on_memories {
                self.scroll_offset = self.scroll_offset + 1;
            }
            DashAction::Nothing
        } else if c == 's' || c == 'S' {
            if on_memories {
                self.input_mode = true;
                self.search_query = String::new();
                self.set_message("Escribe para buscar...");
            }
            DashAction::Nothing
        } else if c == 'f' || c == 'F' {
            if on_memories {
                let shown = visible_records(records, self.search_query.as_str());
                if self.selected_index < shown.len() {
                    proof {
                        assert(records@.len() == records.len());
                        lemma_listed_in_range(records@, self@.query, records@.len() as int);
                    }
                    let k = shown[self.selected_index];
                    DashAction::Forget(records[k].id.clone())
                } else {
                    DashAction::Nothing
                }
            } else {
                DashAction::Nothing
            }
        } else if c == 'p' || c == 'P' {
            if on_memories {
                DashAction::FindOrphans
            } else {
                DashAction::Nothing
            }
        } else if c == 'm' || c == 'M' {
            if self.active_tab == ActiveTab::GraphPRs {
                self.set_message("GPR merge no disponible en modo local.");
            }
            DashAction::Nothing
        } else {
            DashAction::Nothing
        }
    }
}

/// The selection after the list changed: kept when on the list (or when the
/// list is empty), else moved to the last memory shown.
pub open spec fn clamped(s: DashView, listed_len: nat) -> DashView {
    if s.selected >= listed_len && listed_len > 0 {
        DashView { selected: (listed_len - 1) as usize, ..s }
    } else {
        s
    }
}

/// A key press never moves the selected memory off the list: when it was on
/// the list before, it is after.
pub proof fn lemma_key_keeps_selection_on_list(
    s: DashView,
    key: DashKey,
    listed_len: nat,
    selected_id: Option<Seq<char>>,
    projects: nat,
)
    requires
        s.selected < listed_len,
    ensures
        key_step(s, key, listed_len, selected_id, projects).0.selected < listed_len,
{
}

/// A key press never moves the selected project off the list of projects.
pub proof fn lemma_key_keeps_project_on_list(
    s: DashView,
    key: DashKey,
    listed_len: nat,
    selected_id: Option<Seq<char>>,
    projects: nat,
)
    requires
        s.project_idx < projects,
    ensures
        key_step(s, key, listed_len, selected_id, projects).0.project_idx < projects,
{
}

/// After the list changes, the selection is on it again whenever the list
/// is not empty.
pub proof fn lemma_clamp_puts_selection_on_list(s: DashView, listed_len: nat)
    requires
        listed_len > 0,
    ensures
        clamped(s, listed_len).selected < listed_len,
{
}


/// The number as the dashboard prints it.
pub open spec fn count_text(n: nat) -> Seq<char> {
    decimal_number(n)
}

fn count_chars(n: usize) -> (r: Vec<char>)
    ensures
        r@ == count_text(n as nat),
{
    decimal_of_u64(n as u64)
}

impl DashboardState {
    /// Keeps the selection on the list of memories shown for the current
    /// search.
    pub fn clamp_selection(&mut self, records: &[VectorRecord])
        ensures
            final(self)@ == clamped(old(self)@, listed(records@, old(self)@.query).len()),
    {
        let shown = visible_records(records, self.search_query.as_str());
        if self.selected_index >= shown.len() && shown.len() > 0 {
            self.selected_index = shown.len() - 1;
        }
    }

    /// Records how saving after a prune went: the number of memories on the
    /// prune list when saved, else the error.
    pub fn after_prune(&mut self, saved: bool)
        ensures
            final(self)@ == with_message(
                old(self)@,
                if saved {
                    "Depuracion ejecutada. "@ + count_text(old(self)@.prune_list.len())
                        + " recuerdos eliminados."@
                } else {
                    "Error al guardar los cambios en vectors.json"@
                },
            ),
    {
        if saved {
            let mut m = "Depuracion ejecutada. ".to_owned();
            push_all(&mut m, &count_chars(self.prune_list.len()));
            push_str(&mut m, " recuerdos eliminados.");
            self.status_message = m;
        } else {
            self.set_message("Error al guardar los cambios en vectors.json");
        }
    }

    /// Records how saving after forgetting the memory `id` went.
    pub fn after_forget(&mut self, id: &str, saved: bool)
        ensures
            final(self)@ == with_message(
                old(self)@,
                if saved {
                    "Olvidado: "@ + id@
                } else {
                    "Error al guardar cambios en vectors.json"@
                },
            ),
    {
        if saved {
            let mut m = "Olvidado: ".to_owned();
            push_str(&mut m, id);
            self.status_message = m;
        } else {
            self.set_message("Error al guardar cambios en vectors.json");
        }
    }

    /// Records that the memories were read again on request.
    pub fn after_reload(&mut self)
        ensures
            final(self)@ == with_message(old(self)@, "Recuerdos vectoriales recargados."@),
    {
        self.set_message("Recuerdos vectoriales recargados.");
    }

    /// Records that the memories changed on disk and were read again.
    pub fn after_auto_reload(&mut self)
        ensures
            final(self)@ == with_message(
                old(self)@,
                "Recuerdos vectoriales actualizados automáticamente."@,
            ),
    {
        self.set_message("Recuerdos vectoriales actualizados automáticamente.");
    }

    /// Takes the ids of the memories whose source file is gone as the prune
    /// list: when there are none it says so, else it asks to confirm.
    pub fn orphans_found(&mut self, ids: Vec<String>)
        ensures
            final(self)@ == (if ids@.len() == 0 {
                DashView {
                    prune_list: Seq::empty(),
                    message: "No se detectaron recuerdos huerfanos."@,
                    ..old(self)@
                }
            } else {
                DashView {
                    prune_list: ids@.map_values(|s: String| s@),
                    prune_confirm: true,
                    ..old(self)@
                }
            }),
    {
        let none = ids.len() == 0;
        self.prune_list = ids;
        if none {
            self.set_message("No se detectaron recuerdos huerfanos.");
            assert(self@.prune_list =~= Seq::<Seq<char>>::empty());
        } else {
            self.prune_confirm = true;
        }
    }

    /// The help line under the dashboard: the search being typed, else the
    /// keys of the current tab.
    pub fn input_info(&self) -> (r: String)
        ensures
            r@ == (if self.input_mode {
                "BUSCAR (Escribe y pulsa Enter): "@ + self.search_query@
            } else {
                match self.active_tab {
                    ActiveTab::Memories => "[q] Salir  [Tab] Ciclador  [s] Buscar  [f] Olvidar  [p] Depurar  [Esc] Limpiar  [,] Subir  [.] Bajar"@,
                    ActiveTab::SystemStatus => "[q] Salir  [Tab] Ciclador  [r] Recargar Logs  [↑/↓] Navegar proyectos"@,
                    ActiveTab::GraphPRs => "[q] Salir  [Tab] Ciclador"@,
                }
            }),
    {
        if self.input_mode {
            let mut m = "BUSCAR (Escribe y pulsa Enter): ".to_owned();
            push_str(&mut m, self.search_query.as_str());
            m
        } else {
            match self.active_tab {
                ActiveTab::Memories => "[q] Salir  [Tab] Ciclador  [s] Buscar  [f] Olvidar  [p] Depurar  [Esc] Limpiar  [,] Subir  [.] Bajar".to_owned(),
                ActiveTab::SystemStatus => "[q] Salir  [Tab] Ciclador  [r] Recargar Logs  [↑/↓] Navegar proyectos".to_owned(),
                ActiveTab::GraphPRs => "[q] Salir  [Tab] Ciclador".to_owned(),
            }
        }
    }

    /// The title of the list of memories: how many are shown, and the search
    /// when there is one.
    pub fn list_title(&self, shown: usize) -> (r: String)
        ensures
            r@ == (if self.search_query@.len() == 0 {
                " Recuerdos ("@ + count_text(shown as nat) + ") "@
            } else {
                " Busqueda: '"@ + self.search_query@ + "' ("@ + count_text(shown as nat) + ") "@
            }),
    {
        if self.search_query.as_str().is_empty() {
            let mut m = " Recuerdos (".to_owned();
            push_all(&mut m, &count_chars(shown));
            push_str(&mut m, ") ");
            m
        } else {
            let mut m = " Busqueda: '".to_owned();
            push_str(&mut m, self.search_query.as_str());
            push_str(&mut m, "' (");
            push_all(&mut m, &count_chars(shown));
            push_str(&mut m, ") ");
            m
        }
    }
}

/// `id` is among `ids`.
pub open spec fn id_listed(ids: Seq<Seq<char>>, id: Seq<char>) -> bool {
    ids.contains(id)
}

/// The positions of the records kept when those with an id in `ids` are
/// removed, among the first `n`.
pub open spec fn kept_upto(records: Seq<VectorRecord>, ids: Seq<Seq<char>>, n: int) -> Seq<usize>
    decreases n,
{
    if n <= 0 {
        Seq::empty()
    } else if !id_listed(ids, records[n - 1].id@) {
        kept_upto(records, ids, n - 1).push((n - 1) as usize)
    } else {
        kept_upto(records, ids, n - 1)
    }
}

fn has_id(ids: &[String], id: &str) -> (r: bool)
    ensures
        r == id_listed(ids@.map_values(|s: String| s@), id@),
{
    let ghost v = ids@.map_values(|s: String| s@);
    let mut i: usize = 0;
    while i < ids.len()
        invariant
            i <= ids@.len(),
            v == ids@.map_values(|s: String| s@),
            forall|j: int| 0 <= j < i ==> v[j] != id@,
        decreases ids@.len() - i,
    {
        if crate::text::str_eq(ids[i].as_str(), id) {
            assert(v[i as int] == id@);
            return true;
        }
        i += 1;
    }
    assert(!v.contains(id@));
    false
}

/// The positions of the memories that stay when those whose id is in `ids`
/// are removed, in order (a prune removes the prune list, forgetting removes
/// one id).
pub fn kept_positions(records: &[VectorRecord], ids: &[String]) -> (r: Vec<usize>)
    ensures
        r@ == kept_upto(records@, ids@.map_values(|s: String| s@), records@.len() as int),
{
    let ghost v = ids@.map_values(|s: String| s@);
    let mut r: Vec<usize> = Vec::new();
    let mut i: usize = 0;
    while i < records.len()
        invariant
            i <= records@.len(),
            v == ids@.map_values(|s: String| s@),
            r@ == kept_upto(records@, v, i as int),
        decreases records@.len() - i,
    {
        if !has_id(ids, records[i].id.as_str()) {
            r.push(i);
        }
        i += 1;
    }
    r
}

/// The figures shown under the list of memories.
#[derive(Debug, Clone, Copy, PartialEq, Eq)]
pub struct MemoryStats {
    pub total: usize,
    pub facts: usize,
    pub lessons: usize,
    pub contexts: usize,
    pub total_hits: i64,
}

/// The category is `c` up to ASCII case.
pub open spec fn in_category(r: VectorRecord, c: Seq<char>) -> bool {
    ascii_lower_seq(r.category@) == c
}

/// How many of `records` are in category `c` (ASCII case ignored).
pub open spec fn category_count(records: Seq<VectorRecord>, c: Seq<char>) -> nat
    decreases records.len(),
{
    if records.len() == 0 {
        0
    } else {
        category_count(records.drop_last(), c) + if in_category(records.last(), c) {
            1nat
        } else {
            0nat
        }
    }
}

/// The hits of all `records`.
pub open spec fn hits_total(records: Seq<VectorRecord>) -> int
    decreases records.len(),
{
    if records.len() == 0 {
        0
    } else {
        hits_total(records.drop_last()) + records.last().hit_count
    }
}

/// Every running total of hits stays within `i64`.
pub open spec fn hits_fit(records: Seq<VectorRecord>) -> bool {
    forall|k: int| 0 <= k <= records.len() ==> i64::MIN <= #[trigger] hits_total(records.take(k)) <= i64::MAX
}

proof fn lemma_category_count_bound(records: Seq<VectorRecord>, c: Seq<char>)
    ensures
        category_count(records, c) <= records.len(),
    decreases records.len(),
{
    if records.len() > 0 {
        lemma_category_count_bound(records.drop_last(), c);
    }
}

/// Whether the hits of the records can be added up in an `i64`, as
/// `memory_stats` needs.
pub fn hits_fit_in(records: &[VectorRecord]) -> (r: bool)
    ensures
        r == hits_fit(records@),
{
    let mut total: i64 = 0;
    let mut i: usize = 0;
    assert(records@.take(0) =~= Seq::<VectorRecord>::empty());
    while i < records.len()
        invariant
            i <= records@.len(),
            total == hits_total(records@.take(i as int)),
            forall|k: int| 0 <= k <= i ==> i64::MIN <= #[trigger] hits_total(records@.take(k)) <= i64::MAX,
        decreases records@.len() - i,
    {
        proof {
            assert(records@.take(i + 1).drop_last() =~= records@.take(i as int));
            assert(records@.take(i + 1).last() == records@[i as int]);
        }
        match total.checked_add(records[i].hit_count) {
            None => {
                proof {
                    assert(!(i64::MIN <= hits_total(records@.take(i + 1)) <= i64::MAX));
                }
                return false;
            },
            Some(v) => {
                total = v;
            },
        }
        i += 1;
    }
    assert(records@.take(i as int) =~= records@);
    true
}

/// The figures of all stored memories: how many, how many facts, lessons and
/// contexts (category compared up to ASCII case), and their hits together.
pub fn memory_stats(records: &[VectorRecord]) -> (r: MemoryStats)
    requires
        hits_fit(records@),
    ensures
        r.total == records@.len(),
        r.facts == category_count(records@, "fact"@),
        r.lessons == category_count(records@, "lesson"@),
        r.contexts == category_count(records@, "context"@),
        r.total_hits == hits_total(records@),
{
    let mut facts: usize = 0;
    let mut lessons: usize = 0;
    let mut contexts: usize = 0;
    let mut hits: i64 = 0;
    let mut i: usize = 0;
    assert(records@.take(0) =~= Seq::<VectorRecord>::empty());
    while i < records.len()
        invariant
            i <= records@.len(),
            hits_fit(records@),
            facts == category_count(records@.take(i as int), "fact"@),
            lessons == category_count(records@.take(i as int), "lesson"@),
            contexts == category_count(records@.take(i as int), "context"@),
            hits == hits_total(records@.take(i as int)),
        decreases records@.len() - i,
    {
        let r = &records[i];
        proof {
            assert(records@.take(i + 1).drop_last() =~= records@.take(i as int));
            assert(records@.take(i + 1).last() == records@[i as int]);
            assert(i64::MIN <= hits_total(records@.take(i + 1)) <= i64::MAX);
            lemma_category_count_bound(records@.take(i as int), "fact"@);
            lemma_category_count_bound(records@.take(i as int), "lesson"@);
            lemma_category_count_bound(records@.take(i as int), "context"@);
        }
        let cat = ascii_lower_chars(&chars_of(r.category.as_str()));
        if is_word(&cat, "fact") {
            facts = facts + 1;
        }
        if is_word(&cat, "lesson") {
            lessons = lessons + 1;
        }
        if is_word(&cat, "context") {
            contexts = contexts + 1;
        }
        hits = hits + r.hit_count;
        i += 1;
    }
    assert(records@.take(i as int) =~= records@);
    MemoryStats { total: records.len(), facts, lessons, contexts, total_hits: hits }
}

/// How many lines of a project's log the status tab shows.
pub const LOG_TAIL_LINES: usize = 50usize;

/// The last `LOG_TAIL_LINES` lines of a log, in order.
pub open spec fn log_tail_of(content: Seq<char>) -> Seq<Seq<char>> {
    let ls = text_lines(content);
    if ls.len() <= LOG_TAIL_LINES {
        ls
    } else {
        ls.skip(ls.len() - LOG_TAIL_LINES)
    }
}

/// The lines of a project's log that the status tab shows: its last 50.
pub fn log_tail(content: &str) -> (r: Vec<String>)
    ensures
        r@.len() == log_tail_of(content@).len(),
        forall|i: int| 0 <= i < r@.len() ==> #[trigger] r@[i]@ == log_tail_of(content@)[i],
{
    let v = chars_of(content);
    let ls = lines_of(&v);
    let ghost all = text_lines(content@);
    let start = if ls.len() <= LOG_TAIL_LINES {
        0
    } else {
        ls.len() - LOG_TAIL_LINES
    };
    let mut r: Vec<String> = Vec::new();
    let mut i = start;
    while i < ls.len()
        invariant
            start <= i <= ls@.len(),
            ls@.len() == all.len(),
            all == text_lines(content@),
            forall|j: int| 0 <= j < all.len() ==> #[trigger] ls@[j]@ == all[j],
            start == (if all.len() <= LOG_TAIL_LINES { 0 } else { all.len() - LOG_TAIL_LINES }),
            r@.len() == i - start,
            forall|j: int| 0 <= j < r@.len() ==> #[trigger] r@[j]@ == all[start + j],
        decreases ls@.len() - i,
    {
        r.push(string_of(&ls[i]));
        i += 1;
    }
    r
}

/// The last piece of `s[start..]` split at `::` (matches taken left to
/// right, from position `i` on).
pub open spec fn last_piece_from(s: Seq<char>, start: int, i: int) -> Seq<char>
    recommends
        0 <= start <= i <= s.len(),
    decreases s.len() - i,
{
    if i < 0 || i >= s.len() {
        s.subrange(start, s.len() as int)
    } else if i + 1 < s.len() && s[i] == ':' && s[i + 1] == ':' {
        last_piece_from(s, i + 2, i + 2)
    } else {
        last_piece_from(s, start, i + 1)
    }
}

/// The symbol a memory's id names: the part after its last `::`.
pub open spec fn symbol_of(id: Seq<char>) -> Seq<char> {
    last_piece_from(id, 0, 0)
}

/// The symbol a memory's id names (the part after its last `::`; the whole
/// id when it has none), as the list shows it.
pub fn symbol_of_id(id: &str) -> (r: String)
    ensures
        r@ == symbol_of(id@),
{
    let v = chars_of(id);
    let mut start: usize = 0;
    let mut i: usize = 0;
    while i < v.len()
        invariant
            v@ == id@,
            start <= i <= v@.len(),
            last_piece_from(v@, start as int, i as int) == symbol_of(id@),
        decreases v@.len() - i,
    {
        if i + 1 < v.len() && v[i] == ':' && v[i + 1] == ':' {
            start = i + 2;
            i = i + 2;
        } else {
            i = i + 1;
        }
    }
    crate::text::string_of_range(&v, start, v.len())
}

/// The name a memory's source is listed under: its file name, or the whole
/// source when it has none.
pub fn source_base_name(source_path: &str) -> (r: String)
    ensures
        r@ == match crate::paths::file_name(source_path@) {
            Some(n) => n,
            None => source_path@,
        },
{
    let v = chars_of(source_path);
    match crate::paths::file_name_of(&v) {
        Some(n) => string_of(&n),
        None => source_path.to_owned(),
    }
}

} // verus!
