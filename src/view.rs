use vstd::prelude::*;

use crate::clock::{ClockNano, Timestamp};
use crate::filter::{Expr, Interpretor};
use crate::interest::Filter;
use crate::parser::{parse_filter, ParseError};
use crate::socktable::{collected, Entry, SocketTable, SocketTableConfig};
use crate::sparkline::{refreshed, TrafficSparkline};
use crate::store::Store;
use crate::types::IpAddr;

verus! {

/// A key press, as the view reads it.
#[derive(Clone, Copy, Debug, PartialEq, Eq, Structural)]
pub enum Key {
    Char(char),
    Up,
    Down,
    Enter,
    Esc,
    Backspace,
    Other,
}

/// What handling a key press asks of the event loop.
#[derive(Clone, Copy, Debug, PartialEq, Eq, Structural)]
pub enum UiEvent {
    Quit,
    Change,
}

/// The selection after moving down a table of `len` rows.
pub open spec fn select_down(sel: Option<usize>, len: nat) -> Option<usize> {
    if len == 0 {
        None
    } else {
        match sel {
            None => Some(0usize),
            Some(s) => Some(
                (if s + 1 < len {
                    s + 1
                } else {
                    len - 1
                }) as usize,
            ),
        }
    }
}

/// The selection after moving up a table of `len` rows.
pub open spec fn select_up(sel: Option<usize>, len: nat) -> Option<usize> {
    match sel {
        None => None,
        Some(s) => if len == 0 {
            None
        } else {
            Some(
                (if s == 0 {
                    0
                } else if s - 1 < len {
                    s - 1
                } else {
                    len - 1
                }) as usize,
            )
        },
    }
}

/// A socket table with a selected row.
pub struct SocketTableView {
    socket_table: SocketTable,
    selected: Option<usize>,
}

impl SocketTableView {
    pub closed spec fn spec_table(&self) -> SocketTable {
        self.socket_table
    }

    pub closed spec fn spec_selected(&self) -> Option<usize> {
        self.selected
    }

    pub fn new(socket_table: SocketTable) -> (r: Self)
        ensures
            r.spec_table() == socket_table,
            r.spec_selected() == None::<usize>,
    {
        SocketTableView { socket_table, selected: None }
    }

    pub fn table(&self) -> (r: &SocketTable)
        ensures
            *r == self.spec_table(),
    {
        &self.socket_table
    }

    pub fn selected_index(&self) -> (r: Option<usize>)
        ensures
            r == self.spec_selected(),
    {
        self.selected
    }

    /// Moves the selection one row down, to the first row when none is
    /// selected.
    pub fn down(&mut self)
        ensures
            final(self).spec_table() == old(self).spec_table(),
            final(self).spec_selected() == select_down(
                old(self).spec_selected(),
                old(self).spec_table().spec_dataset().len(),
            ),
    {
        let len = self.socket_table.len();
        self.selected = if len == 0 {
            None
        } else {
            match self.selected {
                None => Some(0),
                Some(s) => Some(
                    if s < len - 1 {
                        s + 1
                    } else {
                        len - 1
                    },
                ),
            }
        };
    }

    /// Moves the selection one row up.
    pub fn up(&mut self)
        ensures
            final(self).spec_table() == old(self).spec_table(),
            final(self).spec_selected() == select_up(
                old(self).spec_selected(),
                old(self).spec_table().spec_dataset().len(),
            ),
    {
        let len = self.socket_table.len();
        self.selected = match self.selected {
            None => None,
            Some(s) => if len == 0 {
                None
            } else {
                Some(
                    if s == 0 {
                        0
                    } else if s - 1 < len {
                        s - 1
                    } else {
                        len - 1
                    },
                )
            },
        };
    }

    pub open spec fn spec_selected_entry(&self) -> Option<Entry> {
        match self.spec_selected() {
            Some(i) => if i < self.spec_table().spec_dataset().len() {
                Some(self.spec_table().spec_dataset()[i as int])
            } else {
                None
            },
            None => None,
        }
    }

    /// The selected row, if the selection is on one.
    pub fn selected(&self) -> (r: Option<Entry>)
        ensures
            r == self.spec_selected_entry(),
    {
        match self.selected {
            Some(i) => {
                let rows = self.socket_table.dataset();
                if i < rows.len() {
                    Some(rows[i])
                } else {
                    None
                }
            },
            None => None,
        }
    }

    /// The pid of the selected row.
    pub fn selected_pid(&self) -> (r: Option<u32>)
        ensures
            r == match self.spec_selected_entry() {
                Some(e) => Some(e.pid),
                None => None::<u32>,
            },
    {
        match self.selected() {
            Some(e) => Some(e.pid),
            None => None,
        }
    }

    /// Replaces the expression that rows must also pass.
    pub fn set_expr(&mut self, interpretor: Option<Interpretor>)
        ensures
            final(self).spec_selected() == old(self).spec_selected(),
            final(self).spec_table().spec_config() == old(self).spec_table().spec_config(),
            final(self).spec_table().spec_dataset() == old(self).spec_table().spec_dataset(),
            final(self).spec_table().spec_rate_collection_range() == old(
                self,
            ).spec_table().spec_rate_collection_range(),
            final(self).spec_table().spec_expr() == interp_ast(interpretor),
    {
        self.socket_table.set_expr(interpretor);
    }

    /// Rebuilds the rows unless paused.
    pub fn refresh(&mut self, ts: Timestamp, clock: &ClockNano, store: &Store, paused: bool)
        requires
            store.wf(),
        ensures
            final(self).spec_selected() == old(self).spec_selected(),
            paused ==> final(self).spec_table()@ == old(self).spec_table()@,
            !paused ==> collected(
                old(self).spec_table(),
                final(self).spec_table(),
                ts,
                clock.wall_origin(),
                store.segs(),
                store.spec_window(),
            ),
    {
        if !paused {
            self.socket_table.collect(ts, clock, store);
        }
    }
}

/// A committed custom filter: its text and its interpretor.
pub struct CustomFilter {
    pub content: String,
    pub interpretor: Interpretor,
}

impl Clone for CustomFilter {
    fn clone(&self) -> (r: Self)
        ensures
            r.content@ == self.content@,
            r.interpretor.spec_ast() == self.interpretor.spec_ast(),
    {
        CustomFilter { content: self.content.clone(), interpretor: self.interpretor.clone() }
    }
}

/// The state of the filter editor: the committed filter, the draft being
/// typed, and whether it is being edited.
pub struct FilterEditor {
    committed: Option<CustomFilter>,
    draft: Result<Option<Interpretor>, ParseError>,
    editing: bool,
}

pub open spec fn interp_ast(i: Option<Interpretor>) -> Option<Expr> {
    match i {
        Some(i) => Some(i.spec_ast()),
        None => None,
    }
}

pub open spec fn custom_ast(c: Option<CustomFilter>) -> Option<Expr> {
    match c {
        Some(c) => Some(c.interpretor.spec_ast()),
        None => None,
    }
}

/// The draft of a text: none for an empty text, else its parse.
pub open spec fn draft_of(content: Seq<char>) -> Result<Option<Expr>, ParseError> {
    if content.len() == 0 {
        Ok(None)
    } else {
        match parse_filter(content) {
            Ok(e) => Ok(Some(e)),
            Err(x) => Err(x),
        }
    }
}

impl FilterEditor {
    pub closed spec fn spec_committed(&self) -> Option<Expr> {
        custom_ast(self.committed)
    }

    pub closed spec fn spec_committed_content(&self) -> Option<Seq<char>> {
        match self.committed {
            Some(c) => Some(c.content@),
            None => None,
        }
    }

    pub closed spec fn spec_draft(&self) -> Result<Option<Expr>, ParseError> {
        match self.draft {
            Ok(i) => Ok(interp_ast(i)),
            Err(x) => Err(x),
        }
    }

    pub closed spec fn spec_editing(&self) -> bool {
        self.editing
    }

    pub fn with_filter(filter: Option<CustomFilter>) -> (r: Self)
        ensures
            r.spec_committed() == custom_ast(filter),
            r.spec_draft() == Ok::<Option<Expr>, ParseError>(None),
            !r.spec_editing(),
    {
        FilterEditor { committed: filter, draft: Ok(None), editing: false }
    }

    pub fn is_editing(&self) -> (r: bool)
        ensures
            r == self.spec_editing(),
    {
        self.editing
    }

    /// Whether the draft parses.
    pub fn is_valid(&self) -> (r: bool)
        ensures
            r == self.spec_draft() is Ok,
    {
        self.draft.is_ok()
    }

    /// Why the draft does not parse, if it does not.
    pub fn draft_error(&self) -> (r: Option<ParseError>)
        ensures
            r == match self.spec_draft() {
                Err(x) => Some(x),
                Ok(_) => None::<ParseError>,
            },
    {
        match &self.draft {
            Err(x) => Some(*x),
            Ok(_) => None,
        }
    }

    /// The text of the committed filter.
    pub fn committed_content(&self) -> (r: Option<String>)
        ensures
            match r {
                Some(c) => self.spec_committed_content() == Some(c@),
                None => self.spec_committed_content() is None,
            },
    {
        match &self.committed {
            Some(c) => Some(c.content.clone()),
            None => None,
        }
    }

    /// The committed filter.
    pub fn committed(&self) -> (r: Option<CustomFilter>)
        ensures
            custom_ast(r) == self.spec_committed(),
    {
        match &self.committed {
            Some(c) => Some(c.clone()),
            None => None,
        }
    }

    /// Starts editing, the draft being the committed filter.
    pub fn set_editing(&mut self)
        ensures
            final(self).spec_editing(),
            final(self).spec_committed() == old(self).spec_committed(),
            final(self).spec_committed_content() == old(self).spec_committed_content(),
            final(self).spec_draft() == Ok::<Option<Expr>, ParseError>(old(self).spec_committed()),
    {
        self.editing = true;
        self.draft = match &self.committed {
            Some(c) => Ok(Some(c.interpretor.clone())),
            None => Ok(None),
        };
    }

    /// Parses the edited text into the draft.
    pub fn update(&mut self, content: &str)
        requires
            content@.len() < usize::MAX,
        ensures
            final(self).spec_editing() == old(self).spec_editing(),
            final(self).spec_committed() == old(self).spec_committed(),
            final(self).spec_committed_content() == old(self).spec_committed_content(),
            final(self).spec_draft() == draft_of(content@),
    {
        if content.unicode_len() == 0 {
            self.draft = Ok(None);
        } else {
            self.draft = match Interpretor::parse(content) {
                Ok(i) => Ok(Some(i)),
                Err(x) => Err(x),
            };
        }
    }

    /// Ends editing: the draft, if it holds an expression, becomes the
    /// committed filter with the text `content`; otherwise no filter is
    /// committed.
    pub fn commit(&mut self, content: String)
        ensures
            !final(self).spec_editing(),
            final(self).spec_draft() == Ok::<Option<Expr>, ParseError>(None),
            final(self).spec_committed() == match old(self).spec_draft() {
                Ok(Some(e)) => Some(e),
                _ => None::<Expr>,
            },
            old(self).spec_draft() matches Ok(Some(_)) ==> final(self).spec_committed_content()
                == Some(content@),
    {
        self.editing = false;
        let committed = match &self.draft {
            Ok(Some(i)) => Some(CustomFilter { content, interpretor: i.clone() }),
            _ => None,
        };
        self.draft = Ok(None);
        self.committed = committed;
    }

    /// Ends editing and drops the draft; the committed filter stays.
    pub fn abort(&mut self)
        ensures
            !final(self).spec_editing(),
            final(self).spec_draft() == Ok::<Option<Expr>, ParseError>(None),
            final(self).spec_committed() == old(self).spec_committed(),
            final(self).spec_committed_content() == old(self).spec_committed_content(),
    {
        self.editing = false;
        self.draft = Ok(None);
    }

    /// The interpretor in force: the draft's while editing, else the
    /// committed one.
    pub fn interpretor(&self) -> (r: Option<Interpretor>)
        ensures
            interp_ast(r) == (if self.spec_editing() {
                match self.spec_draft() {
                    Ok(d) => d,
                    Err(_) => None,
                }
            } else {
                self.spec_committed()
            }),
    {
        if self.editing {
            match &self.draft {
                Ok(Some(i)) => Some(i.clone()),
                _ => None,
            }
        } else {
            match &self.committed {
                Some(c) => Some(c.interpretor.clone()),
                None => None,
            }
        }
    }
}

/// The settings of the socket table of a view under `filter`.
pub open spec fn table_config(filter: Filter) -> SocketTableConfig {
    SocketTableConfig {
        filter,
        collection_window: (300 * crate::clock::NANOS_PER_SEC) as u64,
        rate_window: crate::clock::NANOS_PER_SEC,
    }
}

/// The terminal view: which root view is shown (all traffic, one process or
/// one remote address), whether collection is paused, the socket table and
/// traffic series of the view, and the filter editor.
pub struct Ui {
    paused: bool,
    dirty: bool,
    filter: Filter,
    table_view: SocketTableView,
    sparkline: TrafficSparkline,
    editor: FilterEditor,
}

impl Ui {
    pub closed spec fn spec_paused(&self) -> bool {
        self.paused
    }

    pub closed spec fn spec_dirty(&self) -> bool {
        self.dirty
    }

    pub closed spec fn spec_filter(&self) -> Filter {
        self.filter
    }

    pub closed spec fn spec_table_view(&self) -> SocketTableView {
        self.table_view
    }

    pub closed spec fn spec_sparkline(&self) -> TrafficSparkline {
        self.sparkline
    }

    pub closed spec fn spec_editor(&self) -> FilterEditor {
        self.editor
    }

    /// The table and the series are those of a fresh view of the root view
    /// shown, the table under the committed custom filter.
    pub open spec fn fresh_view(&self) -> bool {
        &&& self.spec_table_view().spec_selected() is None
        &&& self.spec_table_view().spec_table()@ == (
            table_config(self.spec_filter()),
            self.spec_editor().spec_committed(),
            Seq::<Entry>::empty(),
            None::<(Timestamp, Timestamp)>,
        )
        &&& self.spec_sparkline().spec_filter() == self.spec_filter()
        &&& self.spec_sparkline().spec_dataset().len() == 0
    }

    /// Marked for display, with the same root view, pause state, series and
    /// editor as `prev`, and the same table; only the selection may differ.
    pub open spec fn unchanged_but_selection(&self, prev: Ui) -> bool {
        &&& self.spec_dirty()
        &&& self.spec_paused() == prev.spec_paused()
        &&& self.spec_filter() == prev.spec_filter()
        &&& self.spec_sparkline() == prev.spec_sparkline()
        &&& self.spec_editor() == prev.spec_editor()
        &&& self.spec_table_view().spec_table() == prev.spec_table_view().spec_table()
    }

    /// The main view, running, with nothing collected yet.
    pub fn new() -> (r: Ui)
        ensures
            !r.spec_paused(),
            r.spec_dirty(),
            r.spec_filter() == Filter::All,
            !r.spec_editor().spec_editing(),
            r.spec_editor().spec_committed() is None,
            r.fresh_view(),
    {
        let editor = FilterEditor::with_filter(None);
        let table = SocketTable::with_expr(SocketTableConfig::default().filter(Filter::All), None);
        let r = Ui {
            paused: false,
            dirty: true,
            filter: Filter::All,
            table_view: SocketTableView::new(table),
            sparkline: TrafficSparkline::with_filter(Filter::All),
            editor,
        };
        assert(r.spec_table_view().spec_table()@.2 =~= Seq::<Entry>::empty());
        r
    }

    pub fn is_paused(&self) -> (r: bool)
        ensures
            r == self.spec_paused(),
    {
        self.paused
    }

    pub fn needs_display(&self) -> (r: bool)
        ensures
            r == self.spec_dirty(),
    {
        self.dirty
    }

    pub fn filter(&self) -> (r: Filter)
        ensures
            r == self.spec_filter(),
    {
        self.filter
    }

    pub fn table_view(&self) -> (r: &SocketTableView)
        ensures
            *r == self.spec_table_view(),
    {
        &self.table_view
    }

    pub fn sparkline(&self) -> (r: &TrafficSparkline)
        ensures
            *r == self.spec_sparkline(),
    {
        &self.sparkline
    }

    pub fn editor(&self) -> (r: &FilterEditor)
        ensures
            *r == self.spec_editor(),
    {
        &self.editor
    }

    fn update_view(&mut self)
        ensures
            final(self).spec_filter() == old(self).spec_filter(),
            final(self).spec_paused() == old(self).spec_paused(),
            final(self).spec_dirty() == old(self).spec_dirty(),
            final(self).spec_editor() == old(self).spec_editor(),
            final(self).fresh_view(),
    {
        let committed = match self.editor.committed() {
            Some(c) => Some(c.interpretor),
            None => None,
        };
        let table = SocketTable::with_expr(SocketTableConfig::default().filter(self.filter), committed);
        self.table_view = SocketTableView::new(table);
        self.sparkline = TrafficSparkline::with_filter(self.filter);
        assert(self.spec_table_view().spec_table()@.2 =~= Seq::<Entry>::empty());
    }

    /// Shows the root view of `filter`, with a fresh table and series, unless
    /// it is already shown.
    fn update_filter(&mut self, filter: Filter)
        ensures
            final(self).spec_filter() == filter,
            final(self).spec_paused() == old(self).spec_paused(),
            final(self).spec_dirty() == old(self).spec_dirty(),
            final(self).spec_editor() == old(self).spec_editor(),
            old(self).spec_filter() != filter ==> final(self).fresh_view(),
            old(self).spec_filter() == filter ==> final(self).spec_table_view() == old(
                self,
            ).spec_table_view() && final(self).spec_sparkline() == old(self).spec_sparkline(),
    {
        if self.filter != filter {
            self.filter = filter;
            self.update_view();
        }
    }

    /// Handles a key press. While the filter editor is being edited it takes
    /// the keys: `Esc` aborts (and asks for nothing), `Enter` commits a valid draft, and any other
    /// key has already changed the edited text to `content`. Otherwise: `q`
    /// or backspace goes back to the main view, or quits from it; `p` or
    /// `Enter` shows the selected row's process, `r` its remote address;
    /// up/`k` and down/`j` move the selection; space pauses or resumes; `/`
    /// starts editing the filter.
    pub fn handle_event(&mut self, key: Key, content: &str) -> (r: Option<UiEvent>)
        requires
            content@.len() < usize::MAX,
        ensures
            old(self).spec_editor().spec_editing() ==> final(self).spec_filter() == old(
                self,
            ).spec_filter() && final(self).spec_paused() == old(self).spec_paused(),
            old(self).spec_editor().spec_editing() && key == Key::Esc ==> r is None
                && final(self).spec_editor().spec_committed_content() == old(
                self,
            ).spec_editor().spec_committed_content() && final(self).spec_editor().spec_draft()
                == Ok::<Option<Expr>, ParseError>(None) && final(self).spec_dirty() && !final(self).spec_editor().spec_editing() && final(self).spec_editor().spec_committed()
                == old(self).spec_editor().spec_committed() && final(self).spec_table_view()
                == old(self).spec_table_view(),
            old(self).spec_editor().spec_editing() && key == Key::Enter ==> if old(
                self,
            ).spec_editor().spec_draft() is Ok {
                &&& r == Some(UiEvent::Change)
                &&& !final(self).spec_editor().spec_editing()
                &&& final(self).spec_editor().spec_committed() == match old(
                    self,
                ).spec_editor().spec_draft() {
                    Ok(Some(e)) => Some(e),
                    _ => None::<Expr>,
                }
                &&& final(self).fresh_view()
            } else {
                r is None && final(self).spec_editor() == old(self).spec_editor()
            },
            old(self).spec_editor().spec_editing() && key != Key::Esc && key != Key::Enter ==> r
                == Some(UiEvent::Change) && final(self).spec_editor().spec_draft() == draft_of(
                content@,
            ) && final(self).spec_editor().spec_committed() == old(self).spec_editor().spec_committed()
                && final(self).spec_table_view() == old(self).spec_table_view(),
            !old(self).spec_editor().spec_editing() ==> match key {
                Key::Char('/') => r == Some(UiEvent::Change) && final(self).spec_editor().spec_editing()
                    && final(self).spec_editor().spec_draft() == Ok::<Option<Expr>, ParseError>(
                    old(self).spec_editor().spec_committed(),
                ) && final(self).spec_filter() == old(self).spec_filter(),
                Key::Char('q') | Key::Backspace => if old(self).spec_filter() == Filter::All {
                    r == Some(UiEvent::Quit) && *final(self) == *old(self)
                } else {
                    r is None && final(self).spec_filter() == Filter::All && final(self).fresh_view()
                },
                Key::Up | Key::Char('k') => r == Some(UiEvent::Change)
                    && final(self).spec_table_view().spec_table() == old(
                    self,
                ).spec_table_view().spec_table() && final(self).spec_table_view().spec_selected()
                    == select_up(
                    old(self).spec_table_view().spec_selected(),
                    old(self).spec_table_view().spec_table().spec_dataset().len(),
                ) && final(self).unchanged_but_selection(*old(self)),
                Key::Down | Key::Char('j') => r == Some(UiEvent::Change)
                    && final(self).spec_table_view().spec_table() == old(
                    self,
                ).spec_table_view().spec_table() && final(self).spec_table_view().spec_selected()
                    == select_down(
                    old(self).spec_table_view().spec_selected(),
                    old(self).spec_table_view().spec_table().spec_dataset().len(),
                ) && final(self).unchanged_but_selection(*old(self)),
                Key::Char('p') | Key::Enter => r is None && match old(
                    self,
                ).spec_table_view().spec_selected_entry() {
                    Some(e) => final(self).spec_filter() == Filter::Process(e.pid) && (old(
                        self,
                    ).spec_filter() != Filter::Process(e.pid) ==> final(self).fresh_view()),
                    None => final(self).spec_filter() == old(self).spec_filter(),
                },
                Key::Char('r') => r is None && match old(self).spec_table_view().spec_selected_entry() {
                    Some(e) => final(self).spec_filter() == Filter::RemoteIp(e.socket.remote.ip) && (old(
                        self,
                    ).spec_filter() != Filter::RemoteIp(e.socket.remote.ip) ==> final(self).fresh_view()),
                    None => final(self).spec_filter() == old(self).spec_filter(),
                },
                Key::Char(' ') => r == Some(UiEvent::Change) && final(self).spec_paused() == !old(
                    self,
                ).spec_paused() && final(self).spec_dirty() && final(self).spec_filter() == old(
                    self,
                ).spec_filter() && final(self).spec_table_view() == old(self).spec_table_view()
                    && final(self).spec_sparkline() == old(self).spec_sparkline()
                    && final(self).spec_editor() == old(self).spec_editor(),
                _ => r is None && *final(self) == *old(self),
            },
    {
        if self.editor.is_editing() {
            match key {
                Key::Esc => {
                    self.editor.abort();
                    self.dirty = true;
                    None
                },
                Key::Enter => {
                    if self.editor.is_valid() {
                        self.editor.commit(content.to_owned());
                        self.update_view();
                        self.dirty = true;
                        Some(UiEvent::Change)
                    } else {
                        None
                    }
                },
                _ => {
                    self.editor.update(content);
                    self.dirty = true;
                    Some(UiEvent::Change)
                },
            }
        } else {
            match key {
                Key::Char('/') => {
                    self.editor.set_editing();
                    self.dirty = true;
                    Some(UiEvent::Change)
                },
                Key::Char('q') | Key::Backspace => {
                    if self.filter == Filter::All {
                        Some(UiEvent::Quit)
                    } else {
                        self.update_filter(Filter::All);
                        self.dirty = true;
                        None
                    }
                },
                Key::Up | Key::Char('k') => {
                    self.table_view.up();
                    self.dirty = true;
                    Some(UiEvent::Change)
                },
                Key::Down | Key::Char('j') => {
                    self.table_view.down();
                    self.dirty = true;
                    Some(UiEvent::Change)
                },
                Key::Char('p') | Key::Enter => {
                    if let Some(pid) = self.table_view.selected_pid() {
                        self.update_filter(Filter::Process(pid));
                        self.dirty = true;
                    }
                    None
                },
                Key::Char('r') => {
                    if let Some(e) = self.table_view.selected() {
                        self.update_filter(Filter::RemoteIp(e.socket.remote.ip));
                        self.dirty = true;
                    }
                    None
                },
                Key::Char(' ') => {
                    self.paused = !self.paused;
                    self.dirty = true;
                    Some(UiEvent::Change)
                },
                _ => None,
            }
        }
    }

    /// Collects the view's data for a frame at `ts`, unless paused: while
    /// paused the table and the series stay as they were.
    pub fn render(&mut self, ts: Timestamp, clock: &ClockNano, store: &Store)
        requires
            store.wf(),
        ensures
            !final(self).spec_dirty(),
            final(self).spec_paused() == old(self).spec_paused(),
            final(self).spec_filter() == old(self).spec_filter(),
            final(self).spec_editor() == old(self).spec_editor(),
            final(self).spec_table_view().spec_selected() == old(self).spec_table_view().spec_selected(),
            old(self).spec_paused() ==> final(self).spec_table_view().spec_table()@ == old(
                self,
            ).spec_table_view().spec_table()@ && final(self).spec_sparkline() == old(
                self,
            ).spec_sparkline(),
            !old(self).spec_paused() ==> {
                let expr_table = old(self).spec_table_view().spec_table();
                &&& final(self).spec_table_view().spec_table().spec_expr() == (if old(
                    self,
                ).spec_editor().spec_editing() {
                    match old(self).spec_editor().spec_draft() {
                        Ok(d) => d,
                        Err(_) => None,
                    }
                } else {
                    old(self).spec_editor().spec_committed()
                })
                &&& final(self).spec_table_view().spec_table().spec_config() == expr_table.spec_config()
                &&& collected(
                    final(self).spec_table_view().spec_table(),
                    final(self).spec_table_view().spec_table(),
                    ts,
                    clock.wall_origin(),
                    store.segs(),
                    store.spec_window(),
                )
                &&& refreshed(
                    old(self).spec_sparkline().spec_dataset(),
                    final(self).spec_sparkline().spec_dataset(),
                    old(self).spec_sparkline().spec_filter(),
                    store.segs(),
                )
                &&& final(self).spec_sparkline().spec_filter() == old(self).spec_sparkline().spec_filter()
            },
    {
        self.dirty = false;
        if !self.paused {
            let interpretor = self.editor.interpretor();
            self.table_view.set_expr(interpretor);
            let ghost mid = self.table_view.spec_table();
            self.table_view.refresh(ts, clock, store, false);
            assert(collected(mid, self.table_view.spec_table(), ts, clock.wall_origin(), store.segs(), store.spec_window()));
            self.sparkline.collect(store);
        }
    }
}

} // verus!
