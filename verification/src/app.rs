//! The UI's application state and its reducer.
//!
//! A single struct owns the state registry, the task projection and the
//! cursor state; every event — filesystem or keyboard — becomes an action,
//! and every action is applied here, in one place.

use vstd::prelude::*;

use crate::error::{ErrorEntry, Severity};
use crate::monitor::{Event, StateEvent};
use crate::path::{spec_decode, Kind};
use crate::spinner::{Spinner, BRAILE};
use crate::time::format_local;
use crate::ui::{
    spec_list_selected, spec_ui_focus_state_list, spec_ui_focus_task_table, spec_ui_next,
    spec_ui_previous, spec_ui_switch, Selection, StateList, TaskTable, UI,
};
use crate::{bytes_eq, State, StateV, Status, Task};

verus! {

/// What the reducer decided to do about one event.
#[derive(Debug)]
pub enum Action {
    Tick,
    AddState(State),
    RemoveState(State),
    RefreshTasks,
    Quit,
}

/// A key the terminal reported, reduced to what the reducer reads.
#[derive(Clone, Copy, Debug, PartialEq, Eq, Structural)]
pub enum Key {
    Char(char),
    Esc,
    Up,
    Down,
    Left,
    Right,
    Tab,
    Other,
}

/// A terminal event, reduced to what the reducer reads.
#[derive(Clone, Copy, Debug)]
pub enum UiEvent {
    Key { code: Key, press: bool },
    Other,
}

/// The mathematical value of a state-list row.
pub ghost struct StateEntryV {
    pub name: Seq<u8>,
    pub state: StateV,
}

/// One state-list row: the decoded target path for display, and the state
/// it stands for.
#[derive(Debug)]
pub struct StateEntry {
    pub name: Vec<u8>,
    pub state: State,
}

impl DeepView for StateEntry {
    type V = StateEntryV;

    open spec fn deep_view(&self) -> StateEntryV {
        StateEntryV { name: self.name@, state: self.state@ }
    }
}

/// The row a state becomes.
pub open spec fn spec_entry_of(s: StateV) -> StateEntryV {
    StateEntryV { name: spec_decode(s.file_name), state: s }
}

impl StateEntry {
    /// The row for a state: its decoded path beside it.
    pub fn from(state: State) -> (r: StateEntry)
        ensures
            r.deep_view() == spec_entry_of(state@),
    {
        let name = crate::path::decode(&state.file_name);
        StateEntry { name, state }
    }
}

/// The mathematical value of a task-table row.
pub ghost struct TaskEntryV {
    pub status: Status,
    pub path: Seq<u8>,
    pub time: Seq<char>,
    pub spinner: Spinner,
}

/// One task-table row: the task's status and path, its timestamp rendered
/// for display, and the row's own spinner.
#[derive(Debug)]
pub struct TaskEntry {
    pub status: Status,
    pub path: Vec<u8>,
    pub time: String,
    pub spinner: Spinner,
}

impl DeepView for TaskEntry {
    type V = TaskEntryV;

    open spec fn deep_view(&self) -> TaskEntryV {
        TaskEntryV {
            status: self.status,
            path: self.path@,
            time: self.time@,
            spinner: self.spinner,
        }
    }
}

impl TaskEntry {
    /// The row for a task, its instant rendered in local time.
    pub fn from(task: Task) -> (r: TaskEntry)
        ensures
            r.status == task.status,
            r.path@ == task.path@,
            r.spinner.wf(),
    {
        proof {
            reveal_strlit(
                "\u{28e7}\u{28cf}\u{285f}\u{283f}\u{28bb}\u{28f9}\u{28fc}\u{28f6}",
            );
        }
        TaskEntry {
            status: task.status,
            path: task.path,
            time: format_local(task.time.as_slice()),
            spinner: Spinner::new(BRAILE),
        }
    }
}

/// The first row whose state has this file name, or the row count.
pub open spec fn spec_first_entry(entries: Seq<StateEntryV>, name: Seq<u8>) -> nat
    decreases entries.len(),
{
    if entries.len() == 0 {
        0
    } else if entries[0].state.file_name == name {
        0
    } else {
        1 + spec_first_entry(entries.skip(1), name)
    }
}

/// What `spec_first_entry` returns: the position of the first match.
pub proof fn lemma_first_entry(entries: Seq<StateEntryV>, name: Seq<u8>)
    ensures
        spec_first_entry(entries, name) <= entries.len(),
        forall|j: int|
            0 <= j < spec_first_entry(entries, name) ==> (#[trigger] entries[j]).state.file_name
                != name,
        spec_first_entry(entries, name) < entries.len() ==> entries[spec_first_entry(
            entries,
            name,
        ) as int].state.file_name == name,
    decreases entries.len(),
{
    if entries.len() == 0 {
    } else if entries[0].state.file_name == name {
    } else {
        lemma_first_entry(entries.skip(1), name);
        assert forall|j: int|
            0 <= j < spec_first_entry(entries, name) implies (
        #[trigger] entries[j]).state.file_name != name by {
            if j > 0 {
                assert(entries.skip(1)[j - 1] == entries[j]);
            }
        }
    }
}

/// A no-match scan pins the first matching row down.
proof fn lemma_first_entry_is(entries: Seq<StateEntryV>, name: Seq<u8>, k: int)
    requires
        0 <= k <= entries.len(),
        forall|m: int| 0 <= m < k ==> (#[trigger] entries[m]).state.file_name != name,
        k < entries.len() ==> entries[k].state.file_name == name,
    ensures
        spec_first_entry(entries, name) == if k < entries.len() {
            k as nat
        } else {
            entries.len()
        },
{
    lemma_first_entry(entries, name);
    let f = spec_first_entry(entries, name) as int;
    if k < entries.len() {
        if f < k {
            assert(entries[f].state.file_name != name);
            assert(false);
        } else if f > k {
            assert(entries[k].state.file_name != name);
            assert(false);
        }
    } else {
        if f < entries.len() {
            assert(entries[f].state.file_name != name);
            assert(false);
        }
    }
}

/// The status a projected task shows: stale running marks are downgraded
/// when the backing runtime file is not locked.
pub open spec fn spec_downgraded(status: Status, running: bool) -> Status {
    if status == Status::Running && !running {
        Status::Unknown
    } else {
        status
    }
}

/// The whole application state.
#[derive(Debug)]
pub struct App {
    pub ui: UI,
    pub state_entries: Vec<StateEntry>,
    pub task_entries: Vec<TaskEntry>,
    pub last_error: Option<ErrorEntry>,
}

/// Everything of an application but its cursor state is as it was.
pub open spec fn spec_ui_only(pre: App, post: App) -> bool {
    &&& post.state_entries == pre.state_entries
    &&& post.task_entries == pre.task_entries
    &&& post.last_error == pre.last_error
}

impl App {
    /// The registry rows are in step with the list cursor and pairwise
    /// distinct in file name.
    pub open spec fn wf(self) -> bool {
        &&& self.ui.state_list.len == self.state_entries.len()
        &&& forall|i: int, j: int|
            0 <= i < j < self.state_entries.len()
                ==> (#[trigger] self.state_entries.deep_view()[i]).state.file_name != (
            #[trigger] self.state_entries.deep_view()[j]).state.file_name
    }

    /// The row whose tasks the table shows.
    pub open spec fn spec_selected(self) -> int {
        spec_list_selected(self.ui.state_list) as int
    }

    /// Whether the selected row's state carries this file name.
    pub open spec fn spec_is_selected(self, name: Seq<u8>) -> bool {
        &&& self.spec_selected() < self.state_entries.len()
        &&& self.state_entries.deep_view()[self.spec_selected()].state.file_name == name
    }

    /// The selected row, when the cursor is on one.
    pub fn selected_state(&self) -> (r: Option<&StateEntry>)
        ensures
            match r {
                Some(e) => self.spec_selected() < self.state_entries.len() && *e
                    == self.state_entries[self.spec_selected()],
                None => self.spec_selected() >= self.state_entries.len(),
            },
    {
        let i = self.ui.state_list.selected();
        if i < self.state_entries.len() {
            Some(&self.state_entries[i])
        } else {
            None
        }
    }

    /// Whether a file name is the selected row's.
    pub fn is_selected_state(&self, file_name: &Vec<u8>) -> (r: bool)
        ensures
            r == self.spec_is_selected(file_name@),
    {
        let i = self.ui.state_list.selected();
        if i < self.state_entries.len() {
            let r = bytes_eq(&self.state_entries[i].state.file_name, file_name);
            proof {
                assert(self.state_entries.deep_view()[i as int].state.file_name
                    == self.state_entries@[i as int].state.file_name@);
            }
            r
        } else {
            false
        }
    }

    /// Remember a rendered message, if any, as the banner to show.
    pub fn set_error(&mut self, e: Option<String>, severity: Severity)
        ensures
            final(self).ui == old(self).ui,
            final(self).state_entries == old(self).state_entries,
            final(self).task_entries == old(self).task_entries,
            match e {
                None => final(self).last_error is None,
                Some(m) => final(self).last_error matches Some(entry) && entry.message@
                    == crate::error::spec_capitalize(m@) && entry.severity == severity,
            },
    {
        self.last_error = match e {
            Some(m) => Some(ErrorEntry::new(m, severity)),
            None => None,
        };
    }

    /// Quitting is an action, not a mutation.
    pub fn quit(&mut self) -> (r: Action)
        ensures
            *final(self) == *old(self),
            r matches Action::Quit,
    {
        Action::Quit
    }

    /// Turn one watcher event into an action: a rewrite of the selected
    /// target refreshes the table, appearances and disappearances add and
    /// remove presence flags, and a close-after-write on a runtime file
    /// clears only the running flag.
    pub fn handle_fs(&self, event: Option<StateEvent>) -> (r: Action)
        ensures
            match event {
                None => r matches Action::Tick,
                Some(ev) => match ev.event {
                    Event::Modified => if self.spec_is_selected(ev.file_name@) {
                        r matches Action::RefreshTasks
                    } else {
                        r matches Action::Tick
                    },
                    Event::New => match ev.kind {
                        Kind::Runtime => r matches Action::AddState(s) && s@ == (StateV {
                            file_name: ev.file_name@,
                            persistent: false,
                            runtime: true,
                            running: true,
                        }),
                        Kind::Persistent => r matches Action::AddState(s) && s@ == (StateV {
                            file_name: ev.file_name@,
                            persistent: true,
                            runtime: false,
                            running: false,
                        }),
                    },
                    Event::Removed => match ev.kind {
                        Kind::Runtime => r matches Action::RemoveState(s) && s@ == (StateV {
                            file_name: ev.file_name@,
                            persistent: false,
                            runtime: true,
                            running: true,
                        }),
                        Kind::Persistent => r matches Action::RemoveState(s) && s@ == (StateV {
                            file_name: ev.file_name@,
                            persistent: true,
                            runtime: false,
                            running: false,
                        }),
                    },
                    Event::Closed => match ev.kind {
                        Kind::Runtime => r matches Action::RemoveState(s) && s@ == (StateV {
                            file_name: ev.file_name@,
                            persistent: false,
                            runtime: false,
                            running: true,
                        }),
                        Kind::Persistent => r matches Action::Tick,
                    },
                    Event::Unknown => r matches Action::Tick,
                },
            },
    {
        let Some(ev) = event else {
            return Action::Tick;
        };
        match ev.event {
            Event::Modified => {
                if self.is_selected_state(&ev.file_name) {
                    Action::RefreshTasks
                } else {
                    Action::Tick
                }
            },
            Event::New => match ev.kind {
                Kind::Runtime => Action::AddState(State::new(ev.file_name).runtime().running()),
                Kind::Persistent => Action::AddState(State::new(ev.file_name).persistent()),
            },
            Event::Removed => match ev.kind {
                Kind::Runtime => Action::RemoveState(
                    State::new(ev.file_name).runtime().running(),
                ),
                Kind::Persistent => Action::RemoveState(State::new(ev.file_name).persistent()),
            },
            Event::Closed => match ev.kind {
                Kind::Runtime => Action::RemoveState(State::new(ev.file_name).running()),
                Kind::Persistent => Action::Tick,
            },
            Event::Unknown => Action::Tick,
        }
    }

    /// Turn one terminal event into an action, moving cursors on the way.
    pub fn handle_ui(&mut self, event: Option<UiEvent>) -> (r: Action)
        ensures
            match event {
                Some(UiEvent::Key { code, press }) => spec_keyboard_step(
                    *old(self),
                    *final(self),
                    code,
                    press,
                    r,
                ),
                _ => *final(self) == *old(self) && r matches Action::Tick,
            },
    {
        let Some(ev) = event else {
            return Action::Tick;
        };
        match ev {
            UiEvent::Key { code, press } => self.handle_keyboard(code, press),
            UiEvent::Other => Action::Tick,
        }
    }

    /// Turn one key press into an action: quit, move, or switch focus.
    pub fn handle_keyboard(&mut self, code: Key, press: bool) -> (r: Action)
        ensures
            spec_keyboard_step(*old(self), *final(self), code, press, r),
    {
        if !press {
            return Action::Tick;
        }
        match code {
            Key::Char(c) => {
                if c == 'q' {
                    self.quit()
                } else if c == 'j' {
                    self.ui.next()
                } else if c == 'k' {
                    self.ui.previous()
                } else if c == 'h' {
                    self.ui.focus_state_list()
                } else if c == 'l' {
                    self.ui.focus_task_table()
                } else {
                    Action::Tick
                }
            },
            Key::Esc => self.quit(),
            Key::Down => self.ui.next(),
            Key::Up => self.ui.previous(),
            Key::Left => self.ui.focus_state_list(),
            Key::Right => self.ui.focus_task_table(),
            Key::Tab => self.ui.switch(),
            Key::Other => Action::Tick,
        }
    }
}

/// What one key does to the application: the cursor move it maps to, a
/// quit, or nothing — everything but the cursors untouched.
pub open spec fn spec_keyboard_step(pre: App, post: App, code: Key, press: bool, r: Action) -> bool {
    if !press {
        post == pre && r is Tick
    } else {
        match code {
            Key::Char(c) => if c == 'q' {
                post == pre && r is Quit
            } else if c == 'j' {
                spec_ui_only(pre, post) && post.ui == spec_ui_next(pre.ui).0 && r == spec_ui_next(
                    pre.ui,
                ).1
            } else if c == 'k' {
                spec_ui_only(pre, post) && post.ui == spec_ui_previous(pre.ui).0 && r
                    == spec_ui_previous(pre.ui).1
            } else if c == 'h' {
                spec_ui_only(pre, post) && post.ui == spec_ui_focus_state_list(pre.ui).0 && r
                    == spec_ui_focus_state_list(pre.ui).1
            } else if c == 'l' {
                spec_ui_only(pre, post) && post.ui == spec_ui_focus_task_table(pre.ui).0 && r
                    == spec_ui_focus_task_table(pre.ui).1
            } else {
                post == pre && r is Tick
            },
            Key::Esc => post == pre && r is Quit,
            Key::Down => spec_ui_only(pre, post) && post.ui == spec_ui_next(pre.ui).0 && r
                == spec_ui_next(pre.ui).1,
            Key::Up => spec_ui_only(pre, post) && post.ui == spec_ui_previous(pre.ui).0 && r
                == spec_ui_previous(pre.ui).1,
            Key::Left => spec_ui_only(pre, post) && post.ui == spec_ui_focus_state_list(pre.ui).0
                && r == spec_ui_focus_state_list(pre.ui).1,
            Key::Right => spec_ui_only(pre, post) && post.ui == spec_ui_focus_task_table(pre.ui).0
                && r == spec_ui_focus_task_table(pre.ui).1,
            Key::Tab => spec_ui_only(pre, post) && post.ui == spec_ui_switch(pre.ui).0 && r
                == spec_ui_switch(pre.ui).1,
            Key::Other => post == pre && r is Tick,
        }
    }
}

/// A moment-to-moment deadline: a baseline instant and a period, both in
/// milliseconds.
#[derive(Debug)]
pub struct Interval {
    pub baseline: i64,
    pub delta: i64,
}

/// The clock values the interval arithmetic is proved for: instants within
/// a comfortable 292 millenia of the epoch, a period up to a day.
pub open spec fn spec_interval_bounds(baseline: i64, delta: i64) -> bool {
    &&& -0x2000_0000_0000_0000 < baseline < 0x2000_0000_0000_0000
    &&& 0 <= delta <= 86_400_000
}

impl Interval {
    /// Start counting from the given instant.
    pub fn new(now: i64, delta: i64) -> (r: Interval)
        ensures
            r.baseline == now,
            r.delta == delta,
    {
        Interval { baseline: now, delta }
    }

    /// How long remains until the deadline: the unspent part of the
    /// period, or the whole period again when the deadline has passed.
    pub fn delta(&self, now: i64) -> (r: i64)
        requires
            spec_interval_bounds(self.baseline, self.delta),
            spec_interval_bounds(now, self.delta),
        ensures
            r == if 0 <= self.delta - (now - self.baseline) <= self.delta {
                self.delta - (now - self.baseline)
            } else {
                self.delta as int
            },
    {
        let since = now - self.baseline;
        if 0 <= since && since <= self.delta {
            self.delta - since
        } else {
            self.delta
        }
    }

    /// Whether the deadline has passed; if so, it restarts now.
    pub fn is_late(&mut self, now: i64) -> (r: bool)
        requires
            spec_interval_bounds(old(self).baseline, old(self).delta),
            spec_interval_bounds(now, old(self).delta),
        ensures
            r == (now - old(self).baseline >= old(self).delta),
            r ==> *final(self) == (Interval { baseline: now, delta: old(self).delta }),
            !r ==> *final(self) == *old(self),
    {
        let since = now - self.baseline;
        if since >= self.delta {
            self.baseline = now;
            true
        } else {
            false
        }
    }
}

/// The first row with this display name, or the row count.
pub open spec fn spec_first_name(entries: Seq<StateEntryV>, name: Seq<u8>) -> nat
    decreases entries.len(),
{
    if entries.len() == 0 {
        0
    } else if entries[0].name == name {
        0
    } else {
        1 + spec_first_name(entries.skip(1), name)
    }
}

/// What `spec_first_name` returns: the position of the first match.
proof fn lemma_first_name(entries: Seq<StateEntryV>, name: Seq<u8>)
    ensures
        spec_first_name(entries, name) <= entries.len(),
        forall|j: int|
            0 <= j < spec_first_name(entries, name) ==> (#[trigger] entries[j]).name != name,
        spec_first_name(entries, name) < entries.len() ==> entries[spec_first_name(
            entries,
            name,
        ) as int].name == name,
    decreases entries.len(),
{
    if entries.len() == 0 {
    } else if entries[0].name == name {
    } else {
        lemma_first_name(entries.skip(1), name);
        assert forall|j: int|
            0 <= j < spec_first_name(entries, name) implies (#[trigger] entries[j]).name
            != name by {
            if j > 0 {
                assert(entries.skip(1)[j - 1] == entries[j]);
            }
        }
    }
}

/// A no-match scan pins the first matching display name down.
proof fn lemma_first_name_is(entries: Seq<StateEntryV>, name: Seq<u8>, k: int)
    requires
        0 <= k <= entries.len(),
        forall|m: int| 0 <= m < k ==> (#[trigger] entries[m]).name != name,
        k < entries.len() ==> entries[k].name == name,
    ensures
        spec_first_name(entries, name) == if k < entries.len() {
            k as nat
        } else {
            entries.len()
        },
{
    lemma_first_name(entries, name);
    let f = spec_first_name(entries, name) as int;
    if k < entries.len() {
        if f < k {
            assert(entries[f].name != name);
            assert(false);
        } else if f > k {
            assert(entries[k].name != name);
            assert(false);
        }
    } else {
        if f < entries.len() {
            assert(entries[f].name != name);
            assert(false);
        }
    }
}

/// The display names of the rows, in order.
pub open spec fn spec_entry_names(entries: Seq<StateEntryV>) -> Seq<Seq<u8>> {
    entries.map_values(|e: StateEntryV| e.state.file_name)
}

impl App {
    /// Build the application from the discovered states: one row per
    /// state, sorted ascending by decoded path; the task table empty, the
    /// list cursor on the named target when it is known, else on the top
    /// row; the table focused when exactly one target exists.
    pub fn new(states: Vec<State>, dir: Option<Vec<u8>>) -> (r: App)
        requires
            spec_entry_names(states.deep_view().map_values(|s: StateV| spec_entry_of(s)))
                .no_duplicates(),
        ensures
            r.wf(),
            r.task_entries.len() == 0,
            r.last_error is None,
            r.state_entries.deep_view().to_multiset() == states.deep_view().map_values(
                |s: StateV| spec_entry_of(s),
            ).to_multiset(),
            forall|i: int, j: int|
                0 <= i <= j < r.state_entries.len() ==> crate::runner::lex_le(
                    (#[trigger] r.state_entries.deep_view()[i]).name,
                    (#[trigger] r.state_entries.deep_view()[j]).name,
                ),
            r.ui.task_table == (TaskTable { state: None, len: 0, scroll: 0 }),
            r.ui.state_list.len == r.state_entries.len(),
            r.ui.selection == if r.state_entries.len() == 1 {
                Selection::TaskTable
            } else {
                Selection::StateList
            },
            r.ui.state_list.state == Some(
                {
                    let k = match dir {
                        Some(d) => spec_first_name(r.state_entries.deep_view(), d@),
                        None => r.state_entries.deep_view().len(),
                    };
                    if k < r.state_entries.len() {
                        k as usize
                    } else {
                        0usize
                    }
                },
            ),
    {
        broadcast use vstd::seq_lib::group_to_multiset_ensures;

        let ghost mapped = states.deep_view().map_values(|s: StateV| spec_entry_of(s));
        // One row per state.
        let mut rows: Vec<StateEntry> = Vec::new();
        let mut i: usize = 0;
        while i < states.len()
            invariant
                i <= states.len(),
                rows.len() == i,
                mapped == states.deep_view().map_values(|s: StateV| spec_entry_of(s)),
                forall|j: int| 0 <= j < i ==> #[trigger] rows.deep_view()[j] == mapped[j],
            decreases states.len() - i,
        {
            let s = &states[i];
            let copy = State {
                file_name: s.file_name.clone(),
                persistent: s.persistent,
                runtime: s.runtime,
                running: s.running,
            };
            proof {
                assert(copy@ == states.deep_view()[i as int]);
            }
            let ghost prev = rows.deep_view();
            let row = StateEntry::from(copy);
            rows.push(row);
            proof {
                assert(rows.deep_view() =~= prev.push(mapped[i as int]));
            }
            i = i + 1;
        }
        proof {
            assert(rows.deep_view() =~= mapped);
        }
        // Sort the rows by decoded path.
        let mut sorted: Vec<StateEntry> = Vec::new();
        let mut idx: usize = 0;
        proof {
            assert(rows.deep_view().take(0) =~= Seq::<StateEntryV>::empty());
            assert(spec_entry_names(rows.deep_view().take(0)) =~= Seq::<Seq<u8>>::empty());
            assert(spec_entry_names(sorted.deep_view()) =~= Seq::<Seq<u8>>::empty());
        }
        while idx < rows.len()
            invariant
                idx <= rows.len(),
                sorted.len() == idx,
                sorted.deep_view().to_multiset() == rows.deep_view().take(
                    idx as int,
                ).to_multiset(),
                spec_entry_names(sorted.deep_view()).to_multiset() == spec_entry_names(
                    rows.deep_view().take(idx as int),
                ).to_multiset(),
                forall|a: int, b: int|
                    0 <= a <= b < sorted.len() ==> crate::runner::lex_le(
                        (#[trigger] sorted.deep_view()[a]).name,
                        (#[trigger] sorted.deep_view()[b]).name,
                    ),
            decreases rows.len() - idx,
        {
            let e = &rows[idx];
            let row = StateEntry {
                name: e.name.clone(),
                state: State {
                    file_name: e.state.file_name.clone(),
                    persistent: e.state.persistent,
                    runtime: e.state.runtime,
                    running: e.state.running,
                },
            };
            proof {
                assert(row.deep_view() == rows.deep_view()[idx as int]);
            }
            let ghost dv = sorted.deep_view();
            proof {
                assert(forall|j: int|
                    0 <= j < sorted.len() ==> #[trigger] dv[j] == sorted@[j].deep_view());
            }
            let mut k: usize = 0;
            while k < sorted.len() && crate::runner::lex_le_bytes(&sorted[k].name, &row.name)
                invariant
                    k <= sorted.len(),
                    dv == sorted.deep_view(),
                    row.deep_view() == rows.deep_view()[idx as int],
                    forall|j: int|
                        0 <= j < sorted.len() ==> #[trigger] dv[j] == sorted@[j].deep_view(),
                    forall|j: int|
                        0 <= j < k ==> crate::runner::lex_le(
                            (#[trigger] dv[j]).name,
                            row.deep_view().name,
                        ),
                decreases sorted.len() - k,
            {
                proof {
                    assert(dv[k as int] == sorted@[k as int].deep_view());
                }
                k = k + 1;
            }
            proof {
                if k < sorted.len() {
                    assert(dv[k as int] == sorted@[k as int].deep_view());
                    assert(!crate::runner::lex_le(dv[k as int].name, row.deep_view().name));
                    crate::runner::lemma_lex_total(dv[k as int].name, row.deep_view().name);
                }
            }
            let ghost rv = row.deep_view();
            sorted.insert(k, row);
            proof {
                broadcast use vstd::seq_lib::group_to_multiset_ensures;

                let new_dv = sorted.deep_view();
                assert(new_dv =~= dv.insert(k as int, rv));
                lemma_to_multiset_insert_entries(dv, k as int, rv);
                let taken = rows.deep_view().take(idx as int);
                assert(rows.deep_view().take(idx + 1) =~= taken.push(
                    rows.deep_view()[idx as int],
                ));
                assert(taken.push(rows.deep_view()[idx as int]).to_multiset() =~= taken
                    .to_multiset().insert(rows.deep_view()[idx as int]));
                assert(spec_entry_names(new_dv) =~= spec_entry_names(dv).insert(
                    k as int,
                    rv.state.file_name,
                ));
                lemma_to_multiset_insert_names(spec_entry_names(dv), k as int, rv.state.file_name);
                assert(spec_entry_names(rows.deep_view().take(idx + 1)) =~= spec_entry_names(
                    taken,
                ).push(rv.state.file_name));
                assert(spec_entry_names(taken).push(rv.state.file_name).to_multiset()
                    =~= spec_entry_names(taken).to_multiset().insert(rv.state.file_name));
                assert forall|a: int, b: int|
                    0 <= a <= b < new_dv.len() implies crate::runner::lex_le(
                    (#[trigger] new_dv[a]).name,
                    (#[trigger] new_dv[b]).name,
                ) by {
                    let ki = k as int;
                    if a < ki && b < ki {
                        assert(new_dv[a] == dv[a] && new_dv[b] == dv[b]);
                    } else if a < ki && b == ki {
                        assert(new_dv[a] == dv[a] && new_dv[b] == rv);
                    } else if a < ki && b > ki {
                        assert(new_dv[a] == dv[a] && new_dv[b] == dv[b - 1]);
                    } else if a == ki && b == ki {
                        crate::runner::lemma_lex_total(rv.name, rv.name);
                    } else if a == ki && b > ki {
                        assert(new_dv[b] == dv[b - 1]);
                        if ki < dv.len() {
                            crate::runner::lemma_lex_trans(rv.name, dv[ki].name, dv[b - 1].name);
                        }
                    } else {
                        assert(new_dv[a] == dv[a - 1] && new_dv[b] == dv[b - 1]);
                    }
                }
            }
            idx = idx + 1;
        }
        proof {
            assert(rows.deep_view().take(rows.len() as int) =~= rows.deep_view());
            // A permutation of distinct names stays distinct.
            let names0 = spec_entry_names(mapped);
            let names1 = spec_entry_names(sorted.deep_view());
            names0.lemma_multiset_has_no_duplicates();
            assert(names1.to_multiset() == names0.to_multiset());
            names1.lemma_multiset_has_no_duplicates_conv();
            assert forall|i2: int, j2: int|
                0 <= i2 < j2 < sorted.deep_view().len() implies (
            #[trigger] sorted.deep_view()[i2]).state.file_name != (
            #[trigger] sorted.deep_view()[j2]).state.file_name by {
                assert(names1[i2] == sorted.deep_view()[i2].state.file_name);
                assert(names1[j2] == sorted.deep_view()[j2].state.file_name);
                assert(names1[i2] != names1[j2]);
            }
        }
        // Cursor and focus.
        let selection = if sorted.len() == 1 {
            Selection::TaskTable
        } else {
            Selection::StateList
        };
        let mut state_list = StateList::new(sorted.len());
        match dir {
            Some(d) => {
                let ghost dv = sorted.deep_view();
                proof {
                    assert(forall|j: int|
                        0 <= j < sorted.len() ==> #[trigger] dv[j] == sorted@[j].deep_view());
                }
                let mut k: usize = 0;
                while k < sorted.len() && !bytes_eq(&sorted[k].name, &d)
                    invariant
                        k <= sorted.len(),
                        dv == sorted.deep_view(),
                        forall|j: int|
                            0 <= j < sorted.len() ==> #[trigger] dv[j] == sorted@[j].deep_view(),
                        forall|j: int| 0 <= j < k ==> (#[trigger] dv[j]).name != d@,
                    decreases sorted.len() - k,
                {
                    proof {
                        assert(dv[k as int] == sorted@[k as int].deep_view());
                    }
                    k = k + 1;
                }
                proof {
                    if k < sorted.len() {
                        assert(dv[k as int] == sorted@[k as int].deep_view());
                    }
                    lemma_first_name_is(dv, d@, k as int);
                }
                if k < sorted.len() {
                    state_list.select(k);
                }
            },
            None => {},
        }
        App {
            ui: UI { state_list, task_table: TaskTable::new(0), selection },
            state_entries: sorted,
            task_entries: Vec::new(),
            last_error: None,
        }
    }
}

/// Inserting a row anywhere adds exactly it to the row multiset.
proof fn lemma_to_multiset_insert_entries(s: Seq<StateEntryV>, k: int, v: StateEntryV)
    requires
        0 <= k <= s.len(),
    ensures
        s.insert(k, v).to_multiset() =~= s.to_multiset().insert(v),
{
    broadcast use vstd::seq_lib::group_to_multiset_ensures;
    broadcast use vstd::multiset::group_multiset_axioms;

    let x = s.take(k);
    let y = s.skip(k);
    assert(s =~= x + y);
    assert(s.insert(k, v) =~= x.push(v) + y);
    vstd::seq_lib::lemma_multiset_commutative(x.push(v), y);
    vstd::seq_lib::lemma_multiset_commutative(x, y);
    assert(x.push(v).to_multiset() =~= x.to_multiset().insert(v));
}

/// Inserting a name anywhere adds exactly it to the name multiset.
proof fn lemma_to_multiset_insert_names(s: Seq<Seq<u8>>, k: int, v: Seq<u8>)
    requires
        0 <= k <= s.len(),
    ensures
        s.insert(k, v).to_multiset() =~= s.to_multiset().insert(v),
{
    broadcast use vstd::seq_lib::group_to_multiset_ensures;
    broadcast use vstd::multiset::group_multiset_axioms;

    let x = s.take(k);
    let y = s.skip(k);
    assert(s =~= x + y);
    assert(s.insert(k, v) =~= x.push(v) + y);
    vstd::seq_lib::lemma_multiset_commutative(x.push(v), y);
    vstd::seq_lib::lemma_multiset_commutative(x, y);
    assert(x.push(v).to_multiset() =~= x.to_multiset().insert(v));
}

impl App {
    /// Merge an appearance into the registry: an existing row gains the
    /// new flags, an unknown name becomes a fresh row at the end.
    pub fn add_state_unchecked(&mut self, state: State)
        requires
            old(self).wf(),
        ensures
            final(self).wf(),
            final(self).task_entries == old(self).task_entries,
            final(self).last_error == old(self).last_error,
            final(self).ui.task_table == old(self).ui.task_table,
            final(self).ui.selection == old(self).ui.selection,
            final(self).ui.state_list.state == old(self).ui.state_list.state,
            final(self).ui.state_list.spinner == old(self).ui.state_list.spinner,
            ({
                let dv = old(self).state_entries.deep_view();
                let k = spec_first_entry(dv, state.file_name@) as int;
                if k < dv.len() {
                    &&& final(self).state_entries.deep_view() == dv.update(
                        k,
                        StateEntryV {
                            name: dv[k].name,
                            state: StateV {
                                file_name: dv[k].state.file_name,
                                persistent: dv[k].state.persistent || state.persistent,
                                runtime: dv[k].state.runtime || state.runtime,
                                running: dv[k].state.running || state.running,
                            },
                        },
                    )
                    &&& final(self).ui.state_list.len == old(self).ui.state_list.len
                } else {
                    &&& final(self).state_entries.deep_view() == dv.push(spec_entry_of(state@))
                    &&& final(self).ui.state_list.len == old(self).ui.state_list.len + 1
                }
            }),
    {
        let ghost dv = self.state_entries.deep_view();
        proof {
            assert(forall|j: int|
                0 <= j < self.state_entries.len() ==> #[trigger] dv[j]
                    == self.state_entries@[j].deep_view());
        }
        let mut k: usize = 0;
        while k < self.state_entries.len() && !(self.state_entries[k].state == state)
            invariant
                k <= self.state_entries.len(),
                dv == self.state_entries.deep_view(),
                forall|j: int|
                    0 <= j < self.state_entries.len() ==> #[trigger] dv[j]
                        == self.state_entries@[j].deep_view(),
                forall|j: int| 0 <= j < k ==> (#[trigger] dv[j]).state.file_name != state@.file_name,
            decreases self.state_entries.len() - k,
        {
            proof {
                assert(dv[k as int] == self.state_entries@[k as int].deep_view());
            }
            k = k + 1;
        }
        proof {
            if k < self.state_entries.len() {
                assert(dv[k as int] == self.state_entries@[k as int].deep_view());
            }
            lemma_first_entry_is(dv, state.file_name@, k as int);
        }
        if k < self.state_entries.len() {
            let e = &self.state_entries[k];
            let mut merged = State {
                file_name: e.state.file_name.clone(),
                persistent: e.state.persistent,
                runtime: e.state.runtime,
                running: e.state.running,
            };
            merged.add(&state);
            let row = StateEntry { name: e.name.clone(), state: merged };
            self.state_entries.set(k, row);
            proof {
                assert(self.state_entries.deep_view() =~= dv.update(
                    k as int,
                    StateEntryV {
                        name: dv[k as int].name,
                        state: StateV {
                            file_name: dv[k as int].state.file_name,
                            persistent: dv[k as int].state.persistent || state.persistent,
                            runtime: dv[k as int].state.runtime || state.runtime,
                            running: dv[k as int].state.running || state.running,
                        },
                    },
                ));
            }
        } else {
            let row = StateEntry::from(state);
            self.state_entries.push(row);
            proof {
                assert(self.state_entries.len() == dv.len() + 1);
                assert(self.ui.state_list.len == dv.len());
            }
            self.ui.state_list.len = self.ui.state_list.len + 1;
            proof {
                assert(self.state_entries.deep_view() =~= dv.push(spec_entry_of(state@)));
            }
        }
    }

    /// Take a disappearance out of the registry. The named flags are
    /// cleared on the first matching row; a row left with neither backing
    /// file is deleted — the cursor stepping back when it pointed past the
    /// tail — and the caller is told to rebuild the task projection. When
    /// only the running flag went away, stale running rows of the
    /// projection are downgraded in place.
    pub fn remove_state_unchecked(&mut self, state: State) -> (need_refresh: bool)
        requires
            old(self).wf(),
        ensures
            final(self).wf(),
            final(self).last_error == old(self).last_error,
            final(self).ui.task_table == old(self).ui.task_table,
            final(self).ui.selection == old(self).ui.selection,
            ({
                let dv = old(self).state_entries.deep_view();
                let k = spec_first_entry(dv, state.file_name@) as int;
                if k >= dv.len() {
                    *final(self) == *old(self) && !need_refresh
                } else {
                    let sub = StateV {
                        file_name: dv[k].state.file_name,
                        persistent: dv[k].state.persistent && !state.persistent,
                        runtime: dv[k].state.runtime && !state.runtime,
                        running: dv[k].state.running && !state.running,
                    };
                    &&& ((exists|m: int|
                        0 <= m < final(self).state_entries.deep_view().len() && (
                        #[trigger] final(self).state_entries.deep_view()[m]).state.file_name
                            == state.file_name@) <==> (sub.persistent || sub.runtime))
                    &&& if sub.persistent || sub.runtime {
                        &&& final(self).state_entries.deep_view() == dv.update(
                            k,
                            StateEntryV { name: dv[k].name, state: sub },
                        )
                        &&& final(self).ui == old(self).ui
                        &&& !need_refresh
                        &&& if state.running {
                            &&& final(self).task_entries.deep_view().len() == old(self).task_entries.deep_view().len()
                            &&& forall|t: int|
                                0 <= t < old(self).task_entries.deep_view().len()
                                    ==> #[trigger] final(self).task_entries.deep_view()[t] == (
                                TaskEntryV {
                                    status: spec_downgraded(
                                        old(self).task_entries.deep_view()[t].status,
                                        false,
                                    ),
                                    ..old(self).task_entries.deep_view()[t]
                                })
                        } else {
                            final(self).task_entries == old(self).task_entries
                        }
                    } else {
                        &&& final(self).state_entries.deep_view() == dv.remove(k)
                        &&& final(self).task_entries == old(self).task_entries
                        &&& need_refresh
                        &&& final(self).ui.state_list == ({
                            let shrunk = crate::ui::StateList {
                                len: (old(self).ui.state_list.len - 1) as usize,
                                ..old(self).ui.state_list
                            };
                            if k == dv.len() - 1 {
                                crate::ui::spec_list_after_prev(shrunk)
                            } else {
                                shrunk
                            }
                        })
                    }
                }
            }),
    {
        let ghost dv = self.state_entries.deep_view();
        proof {
            assert(forall|j: int|
                0 <= j < self.state_entries.len() ==> #[trigger] dv[j]
                    == self.state_entries@[j].deep_view());
        }
        let mut k: usize = 0;
        while k < self.state_entries.len() && !(self.state_entries[k].state == state)
            invariant
                k <= self.state_entries.len(),
                dv == self.state_entries.deep_view(),
                forall|j: int|
                    0 <= j < self.state_entries.len() ==> #[trigger] dv[j]
                        == self.state_entries@[j].deep_view(),
                forall|j: int| 0 <= j < k ==> (#[trigger] dv[j]).state.file_name != state@.file_name,
            decreases self.state_entries.len() - k,
        {
            proof {
                assert(dv[k as int] == self.state_entries@[k as int].deep_view());
            }
            k = k + 1;
        }
        proof {
            if k < self.state_entries.len() {
                assert(dv[k as int] == self.state_entries@[k as int].deep_view());
            }
            lemma_first_entry_is(dv, state.file_name@, k as int);
        }
        if k >= self.state_entries.len() {
            return false;
        }
        let e = &self.state_entries[k];
        let mut subbed = State {
            file_name: e.state.file_name.clone(),
            persistent: e.state.persistent,
            runtime: e.state.runtime,
            running: e.state.running,
        };
        subbed.sub(&state);
        if subbed.persistent || subbed.runtime {
            let row = StateEntry { name: e.name.clone(), state: subbed };
            self.state_entries.set(k, row);
            proof {
                assert(self.state_entries.deep_view() =~= dv.update(
                    k as int,
                    StateEntryV {
                        name: dv[k as int].name,
                        state: StateV {
                            file_name: dv[k as int].state.file_name,
                            persistent: dv[k as int].state.persistent && !state.persistent,
                            runtime: dv[k as int].state.runtime && !state.runtime,
                            running: dv[k as int].state.running && !state.running,
                        },
                    },
                ));
            }
            if state.running {
                self.downgrade_running_rows();
            }
            proof {
                assert(self.state_entries.deep_view()[k as int].state.file_name
                    == state.file_name@);
            }
            false
        } else {
            self.state_entries.remove(k);
            proof {
                assert(self.state_entries.deep_view() =~= dv.remove(k as int));
            }
            self.ui.state_list.len = self.ui.state_list.len - 1;
            if k == self.state_entries.len() {
                self.ui.state_list.previous();
            }
            proof {
                assert forall|m: int|
                    0 <= m < self.state_entries.deep_view().len() implies (
                #[trigger] self.state_entries.deep_view()[m]).state.file_name
                    != state.file_name@ by {
                    if m < k {
                        assert(self.state_entries.deep_view()[m] == dv[m]);
                    } else {
                        assert(self.state_entries.deep_view()[m] == dv[m + 1]);
                    }
                }
            }
            true
        }
    }

    /// Downgrade every running row of the task projection to unknown.
    fn downgrade_running_rows(&mut self)
        ensures
            final(self).ui == old(self).ui,
            final(self).state_entries == old(self).state_entries,
            final(self).last_error == old(self).last_error,
            final(self).task_entries.deep_view().len() == old(self).task_entries.deep_view().len(),
            forall|t: int|
                0 <= t < old(self).task_entries.deep_view().len() ==> #[trigger] final(self).task_entries.deep_view()[t] == (TaskEntryV {
                    status: spec_downgraded(old(self).task_entries.deep_view()[t].status, false),
                    ..old(self).task_entries.deep_view()[t]
                }),
    {
        let ghost dv0 = old(self).task_entries.deep_view();
        let mut t: usize = 0;
        while t < self.task_entries.len()
            invariant
                t <= self.task_entries.len(),
                self.task_entries.len() == dv0.len(),
                self.ui == old(self).ui,
                self.state_entries == old(self).state_entries,
                self.last_error == old(self).last_error,
                forall|m: int|
                    0 <= m < t ==> #[trigger] self.task_entries.deep_view()[m] == (TaskEntryV {
                        status: spec_downgraded(dv0[m].status, false),
                        ..dv0[m]
                    }),
                forall|m: int|
                    t <= m < dv0.len() ==> #[trigger] self.task_entries.deep_view()[m] == dv0[m],
            decreases self.task_entries.len() - t,
        {
            let ghost before = self.task_entries.deep_view();
            if self.task_entries[t].status == Status::Running {
                let e = &self.task_entries[t];
                let row = TaskEntry {
                    status: Status::Unknown,
                    path: e.path.clone(),
                    time: e.time.clone(),
                    spinner: e.spinner,
                };
                self.task_entries.set(t, row);
                proof {
                    assert(self.task_entries.deep_view() =~= before.update(
                        t as int,
                        TaskEntryV { status: Status::Unknown, ..before[t as int] },
                    ));
                }
            }
            t = t + 1;
        }
    }
}

/// What a read of the selected target's newest state file came to, every
/// message already rendered: parsed records with any probe warnings, a
/// chosen file that failed to parse, or no readable file at all.
#[derive(Debug)]
pub enum ReadOutcome {
    Parsed(Vec<Task>, Vec<String>),
    ParseFailed(Vec<String>),
    Unreadable(Vec<String>),
}

/// The banner a list of rendered messages leaves behind: the last message,
/// capitalised, at the given severity — or no banner at all.
pub open spec fn spec_banner(msgs: Seq<String>, severity: Severity, e: Option<ErrorEntry>) -> bool {
    if msgs.len() == 0 {
        e is None
    } else {
        e matches Some(entry) && entry.message@ == crate::error::spec_capitalize(
            msgs[msgs.len() - 1]@,
        ) && entry.severity == severity
    }
}

impl App {
    /// Rebuild the task projection for the selected target from a read of
    /// its newest state file. Parsed records replace the projection; a
    /// parse failure is transient — the writer rewrites whole files — so
    /// the projection keeps its previous rows under a low banner; only
    /// when no backing file could be read does the projection empty under
    /// a high banner. With no row selected the projection just empties.
    /// A running mark in a file whose target is not currently locked is
    /// stale, so it shows as unknown: no row of a rebuilt projection is
    /// running unless the target is.
    pub fn refresh_tasks(&mut self, outcome: ReadOutcome)
        requires
            old(self).wf(),
        ensures
            final(self).wf(),
            final(self).state_entries == old(self).state_entries,
            final(self).ui.state_list == old(self).ui.state_list,
            final(self).ui.selection == old(self).ui.selection,
            ({
                let sel = old(self).spec_selected();
                if sel >= old(self).state_entries.len() {
                    &&& final(self).task_entries.len() == 0
                    &&& final(self).ui.task_table == old(self).ui.task_table
                    &&& final(self).last_error == old(self).last_error
                } else {
                    let running = old(self).state_entries.deep_view()[sel].state.runtime && old(self).state_entries.deep_view()[sel].state.running;
                    match outcome {
                        ReadOutcome::Parsed(tasks, msgs) => {
                            &&& final(self).task_entries.len() == tasks.len()
                            &&& forall|t: int|
                                0 <= t < tasks.len() ==> (#[trigger] final(self).task_entries.deep_view()[t]).status == spec_downgraded(
                                    tasks.deep_view()[t].status,
                                    running,
                                ) && final(self).task_entries.deep_view()[t].path
                                    == tasks.deep_view()[t].path
                            &&& (!running ==> forall|t: int|
                                0 <= t < tasks.len() ==> (#[trigger] final(self).task_entries.deep_view()[t]).status != Status::Running)
                            &&& spec_banner(msgs@, Severity::Low, final(self).last_error)
                            &&& final(self).ui.task_table == (TaskTable {
                                len: final(self).task_entries.len(),
                                ..old(self).ui.task_table
                            })
                        },
                        ReadOutcome::ParseFailed(msgs) => {
                            &&& final(self).task_entries == old(self).task_entries
                            &&& final(self).ui.task_table == old(self).ui.task_table
                            &&& spec_banner(msgs@, Severity::Low, final(self).last_error)
                        },
                        ReadOutcome::Unreadable(msgs) => {
                            &&& final(self).task_entries.len() == 0
                            &&& final(self).ui.task_table == (TaskTable {
                                len: 0,
                                ..old(self).ui.task_table
                            })
                            &&& spec_banner(msgs@, Severity::High, final(self).last_error)
                        },
                    }
                }
            }),
    {
        let sel = self.ui.state_list.selected();
        if sel >= self.state_entries.len() {
            self.task_entries.clear();
            return;
        }
        let entry = &self.state_entries[sel];
        let running = entry.state.runtime && entry.state.running;
        proof {
            assert(self.state_entries@[sel as int].deep_view() == self.state_entries.deep_view()[
                sel as int
            ]);
        }
        match outcome {
            ReadOutcome::Parsed(tasks, msgs) => {
                self.task_entries.clear();
                let mut t: usize = 0;
                while t < tasks.len()
                    invariant
                        t <= tasks.len(),
                        self.task_entries.len() == t,
                        self.ui == old(self).ui,
                        self.state_entries == old(self).state_entries,
                        forall|m: int|
                            0 <= m < t ==> (#[trigger] self.task_entries.deep_view()[m]).status
                                == spec_downgraded(tasks.deep_view()[m].status, running)
                                && self.task_entries.deep_view()[m].path
                                == tasks.deep_view()[m].path,
                    decreases tasks.len() - t,
                {
                    let task = &tasks[t];
                    let status = if task.status == Status::Running && !running {
                        Status::Unknown
                    } else {
                        task.status
                    };
                    let copy = Task {
                        status,
                        code: task.code,
                        time: task.time.clone(),
                        path: task.path.clone(),
                    };
                    let ghost prev = self.task_entries.deep_view();
                    let row = TaskEntry::from(copy);
                    self.task_entries.push(row);
                    proof {
                        assert(self.task_entries.deep_view() =~= prev.push(
                            self.task_entries@[t as int].deep_view(),
                        ));
                        assert(tasks.deep_view()[t as int] == tasks@[t as int]@);
                    }
                    t = t + 1;
                }
                if msgs.len() > 0 {
                    let m = msgs[msgs.len() - 1].clone();
                    self.set_error(Some(m), Severity::Low);
                } else {
                    self.set_error(None, Severity::Low);
                }
                let n = self.task_entries.len();
                self.ui.task_table.set_len(n);
            },
            ReadOutcome::ParseFailed(msgs) => {
                if msgs.len() > 0 {
                    let m = msgs[msgs.len() - 1].clone();
                    self.set_error(Some(m), Severity::Low);
                } else {
                    self.set_error(None, Severity::Low);
                }
            },
            ReadOutcome::Unreadable(msgs) => {
                self.task_entries.clear();
                if msgs.len() > 0 {
                    let m = msgs[msgs.len() - 1].clone();
                    self.set_error(Some(m), Severity::High);
                } else {
                    self.set_error(None, Severity::High);
                }
                self.ui.task_table.set_len(0);
            },
        }
    }
}

} // verus!
