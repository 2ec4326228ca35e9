//! Selection state of the two panels: the state list and the task table.
//!
//! Only the cursor logic lives here; drawing the widgets is display work
//! and happens outside the library, mirroring these plain fields.

use vstd::prelude::*;

use crate::app::Action;
use crate::spinner::{Spinner, ARROW};

verus! {

/// Which panel has focus.
#[derive(Clone, Copy, Debug, PartialEq, Eq, Structural)]
pub enum Selection {
    StateList,
    TaskTable,
}

/// The cursor a forward step lands on: the next row, wrapping to the top
/// from the last row or from no selection; nowhere to go in an empty list.
pub open spec fn spec_step_next(state: Option<usize>, len: usize) -> usize {
    if len == 0 {
        0
    } else {
        match state {
            Some(i) => if i + 1 < len {
                (i + 1) as usize
            } else {
                0
            },
            None => 0,
        }
    }
}

/// The cursor a backward step lands on: the previous row, wrapping to the
/// bottom from the first row, the top from no selection.
pub open spec fn spec_step_prev(state: Option<usize>, len: usize) -> usize {
    if len == 0 {
        0
    } else {
        match state {
            Some(i) => if i == 0 {
                (len - 1) as usize
            } else {
                (i - 1) as usize
            },
            None => 0,
        }
    }
}

/// Cursor state of the task table.
#[derive(Debug)]
pub struct TaskTable {
    pub state: Option<usize>,
    pub len: usize,
    pub scroll: usize,
}

impl TaskTable {
    /// A table of the given length with nothing selected.
    pub fn new(len: usize) -> (r: TaskTable)
        ensures
            r == (TaskTable { state: None, len, scroll: 0 }),
    {
        TaskTable { state: None, len, scroll: 0 }
    }

    /// Clear the selection.
    pub fn deselect(&mut self)
        ensures
            *final(self) == (TaskTable { state: None, ..*old(self) }),
    {
        self.state = None;
    }

    /// Move the cursor one row down, wrapping.
    pub fn next(&mut self) -> (r: usize)
        ensures
            r == spec_step_next(old(self).state, old(self).len),
            old(self).len == 0 ==> *final(self) == *old(self),
            old(self).len > 0 ==> *final(self) == (TaskTable {
                state: Some(r),
                len: old(self).len,
                scroll: r,
            }),
    {
        if self.len == 0 {
            return 0;
        }
        let i = match self.state {
            Some(i) => if i < self.len - 1 {
                i + 1
            } else {
                0
            },
            None => 0,
        };
        self.state = Some(i);
        self.scroll = i;
        i
    }

    /// Move the cursor one row up, wrapping.
    pub fn previous(&mut self) -> (r: usize)
        ensures
            r == spec_step_prev(old(self).state, old(self).len),
            old(self).len == 0 ==> *final(self) == *old(self),
            old(self).len > 0 ==> *final(self) == (TaskTable {
                state: Some(r),
                len: old(self).len,
                scroll: r,
            }),
    {
        if self.len == 0 {
            return 0;
        }
        let i = match self.state {
            Some(i) => if i == 0 {
                self.len - 1
            } else {
                i - 1
            },
            None => 0,
        };
        self.state = Some(i);
        self.scroll = i;
        i
    }

    /// Tell the table how many rows it now has.
    pub fn set_len(&mut self, len: usize)
        ensures
            *final(self) == (TaskTable { len, ..*old(self) }),
    {
        self.len = len;
    }
}

/// Cursor state of the state list.
#[derive(Debug)]
pub struct StateList {
    pub state: Option<usize>,
    pub len: usize,
    pub spinner: Spinner,
}

/// The row the list counts as selected: the cursor, or the top row.
pub open spec fn spec_list_selected(l: StateList) -> usize {
    match l.state {
        Some(i) => i,
        None => 0,
    }
}

impl StateList {
    /// A list of the given length with the top row selected.
    pub fn new(len: usize) -> (r: StateList)
        ensures
            r.state == Some(0usize),
            r.len == len,
            r.spinner.wf(),
            r.spinner.chars@ == ARROW@,
            r.spinner.current == 0,
    {
        proof {
            reveal_strlit("\u{25b9}\u{25b8}\u{25b9}\u{25b9}\u{25b9}");
        }
        StateList { state: Some(0), len, spinner: Spinner::new(ARROW) }
    }

    /// Put the cursor on a row.
    pub fn select(&mut self, i: usize)
        ensures
            *final(self) == (StateList { state: Some(i), ..*old(self) }),
    {
        self.state = Some(i);
    }

    /// The selected row.
    pub fn selected(&self) -> (r: usize)
        ensures
            r == spec_list_selected(*self),
    {
        match self.state {
            Some(i) => i,
            None => 0,
        }
    }

    /// Move the cursor one row down, wrapping.
    pub fn next(&mut self) -> (r: usize)
        ensures
            r == spec_step_next(old(self).state, old(self).len),
            old(self).len == 0 ==> *final(self) == *old(self),
            old(self).len > 0 ==> *final(self) == (StateList {
                state: Some(r),
                ..*old(self)
            }),
    {
        if self.len == 0 {
            return 0;
        }
        let i = match self.state {
            Some(i) => if i < self.len - 1 {
                i + 1
            } else {
                0
            },
            None => 0,
        };
        self.state = Some(i);
        i
    }

    /// Move the cursor one row up, wrapping.
    pub fn previous(&mut self) -> (r: usize)
        ensures
            r == spec_step_prev(old(self).state, old(self).len),
            old(self).len == 0 ==> *final(self) == *old(self),
            old(self).len > 0 ==> *final(self) == (StateList {
                state: Some(r),
                ..*old(self)
            }),
    {
        if self.len == 0 {
            return 0;
        }
        let i = match self.state {
            Some(i) => if i == 0 {
                self.len - 1
            } else {
                i - 1
            },
            None => 0,
        };
        self.state = Some(i);
        i
    }
}

/// The whole cursor state of the screen.
#[derive(Debug)]
pub struct UI {
    pub state_list: StateList,
    pub task_table: TaskTable,
    pub selection: Selection,
}

/// What a downward step does to the screen: in the state list it moves the
/// state cursor and, when it lands elsewhere, drops the task selection and
/// asks for a refresh; in the task table it only moves the task cursor.
pub open spec fn spec_ui_next(u: UI) -> (UI, Action) {
    match u.selection {
        Selection::StateList => {
            let before = spec_list_selected(u.state_list);
            let after = spec_step_next(u.state_list.state, u.state_list.len);
            let moved = if u.state_list.len == 0 {
                u.state_list
            } else {
                StateList { state: Some(after), ..u.state_list }
            };
            if before != after {
                (
                    UI {
                        state_list: moved,
                        task_table: TaskTable { state: None, ..u.task_table },
                        ..u
                    },
                    Action::RefreshTasks,
                )
            } else {
                (UI { state_list: moved, ..u }, Action::Tick)
            }
        },
        Selection::TaskTable => {
            let after = spec_step_next(u.task_table.state, u.task_table.len);
            let moved = if u.task_table.len == 0 {
                u.task_table
            } else {
                TaskTable { state: Some(after), len: u.task_table.len, scroll: after }
            };
            (UI { task_table: moved, ..u }, Action::Tick)
        },
    }
}

/// What an upward step does to the screen; the mirror of stepping down.
pub open spec fn spec_ui_previous(u: UI) -> (UI, Action) {
    match u.selection {
        Selection::StateList => {
            let before = spec_list_selected(u.state_list);
            let after = spec_step_prev(u.state_list.state, u.state_list.len);
            let moved = if u.state_list.len == 0 {
                u.state_list
            } else {
                StateList { state: Some(after), ..u.state_list }
            };
            if before != after {
                (
                    UI {
                        state_list: moved,
                        task_table: TaskTable { state: None, ..u.task_table },
                        ..u
                    },
                    Action::RefreshTasks,
                )
            } else {
                (UI { state_list: moved, ..u }, Action::Tick)
            }
        },
        Selection::TaskTable => {
            let after = spec_step_prev(u.task_table.state, u.task_table.len);
            let moved = if u.task_table.len == 0 {
                u.task_table
            } else {
                TaskTable { state: Some(after), len: u.task_table.len, scroll: after }
            };
            (UI { task_table: moved, ..u }, Action::Tick)
        },
    }
}

/// Focusing the state list: always lands there, always a mere tick.
pub open spec fn spec_ui_focus_state_list(u: UI) -> (UI, Action) {
    (UI { selection: Selection::StateList, ..u }, Action::Tick)
}

/// Focusing the task table: only when it has rows; a table focused without
/// a cursor gains one on its first row.
pub open spec fn spec_ui_focus_task_table(u: UI) -> (UI, Action) {
    if u.selection != Selection::TaskTable && u.task_table.len != 0 {
        let focused = if u.task_table.state is None {
            let after = spec_step_next(u.task_table.state, u.task_table.len);
            TaskTable { state: Some(after), len: u.task_table.len, scroll: after }
        } else {
            u.task_table
        };
        (UI { selection: Selection::TaskTable, task_table: focused, ..u }, Action::Tick)
    } else {
        (u, Action::Tick)
    }
}

/// Toggling focus between the two panels.
pub open spec fn spec_ui_switch(u: UI) -> (UI, Action) {
    match u.selection {
        Selection::StateList => spec_ui_focus_task_table(u),
        Selection::TaskTable => spec_ui_focus_state_list(u),
    }
}

impl UI {
    /// Step down in the focused panel.
    pub fn next(&mut self) -> (r: Action)
        ensures
            *final(self) == spec_ui_next(*old(self)).0,
            r == spec_ui_next(*old(self)).1,
    {
        match self.selection {
            Selection::StateList => {
                let before = self.state_list.selected();
                let after = self.state_list.next();
                if before != after {
                    self.task_table.deselect();
                    Action::RefreshTasks
                } else {
                    Action::Tick
                }
            },
            Selection::TaskTable => {
                self.task_table.next();
                Action::Tick
            },
        }
    }

    /// Step up in the focused panel.
    pub fn previous(&mut self) -> (r: Action)
        ensures
            *final(self) == spec_ui_previous(*old(self)).0,
            r == spec_ui_previous(*old(self)).1,
    {
        match self.selection {
            Selection::StateList => {
                let before = self.state_list.selected();
                let after = self.state_list.previous();
                if before != after {
                    self.task_table.deselect();
                    Action::RefreshTasks
                } else {
                    Action::Tick
                }
            },
            Selection::TaskTable => {
                self.task_table.previous();
                Action::Tick
            },
        }
    }

    /// Toggle focus between the panels.
    pub fn switch(&mut self) -> (r: Action)
        ensures
            *final(self) == spec_ui_switch(*old(self)).0,
            r == spec_ui_switch(*old(self)).1,
    {
        match self.selection {
            Selection::StateList => self.focus_task_table(),
            Selection::TaskTable => self.focus_state_list(),
        }
    }

    /// Give the state list focus.
    pub fn focus_state_list(&mut self) -> (r: Action)
        ensures
            *final(self) == spec_ui_focus_state_list(*old(self)).0,
            r == spec_ui_focus_state_list(*old(self)).1,
    {
        if self.selection != Selection::StateList {
            self.selection = Selection::StateList;
        }
        Action::Tick
    }

    /// Give the task table focus, when it has rows to show.
    pub fn focus_task_table(&mut self) -> (r: Action)
        ensures
            *final(self) == spec_ui_focus_task_table(*old(self)).0,
            r == spec_ui_focus_task_table(*old(self)).1,
    {
        if self.selection != Selection::TaskTable && self.task_table.len != 0 {
            self.selection = Selection::TaskTable;
            if self.task_table.state.is_none() {
                self.task_table.next();
            }
        }
        Action::Tick
    }
}

/// The list after one backward step of its cursor.
pub open spec fn spec_list_after_prev(l: StateList) -> StateList {
    if l.len == 0 {
        l
    } else {
        StateList { state: Some(spec_step_prev(l.state, l.len)), ..l }
    }
}

} // verus!
