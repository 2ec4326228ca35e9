use run_stars::app::{Action, App, Interval, Key, ReadOutcome, StateEntry, TaskEntry, UiEvent};
use run_stars::error::{beautify_newline, Error, ErrorEntry, Severity};
use run_stars::monitor::{monitor_map, Event, RawEvent, StateEvent};
use run_stars::path::Kind;
use run_stars::spinner::{Spinner, ARROW, BRAILE};
use run_stars::ui::Selection;
use run_stars::{
    assemble_tasks, states, tasks_choice, Directory, LockProbe, Meta, RuntimeEntry, State, Status,
    Task, TasksResult,
};

fn rt_state(name: &[u8], running: bool) -> State {
    let mut s = State::new(name.to_vec()).runtime();
    if running {
        s = s.running();
    }
    s
}

#[test]
fn state_flags_accumulate_and_clear() {
    let mut s = State::new(b"%a".to_vec()).runtime();
    s.add(&State::new(b"%a".to_vec()).persistent());
    assert!(s.runtime && s.persistent && !s.running);
    s.sub(&State::new(b"%a".to_vec()).runtime().running());
    assert!(!s.runtime && s.persistent && !s.running);
    assert!(s.alive());
    s.sub(&State::new(b"%a".to_vec()).persistent());
    assert!(!s.alive());
}

#[test]
fn state_path_decodes_name() {
    let s = State::new(b"%home%user%batch".to_vec()).runtime();
    assert_eq!(s.path(), b"/home/user/batch".to_vec());
}

#[test]
fn states_merge_from_both_listings() {
    let runtime = vec![
        RuntimeEntry { name: b"%a".to_vec(), probe: LockProbe::Answered(true) },
        RuntimeEntry { name: b"%gone".to_vec(), probe: LockProbe::Vanished },
        RuntimeEntry { name: b"%b".to_vec(), probe: LockProbe::Failed },
    ];
    let persistent = vec![b"%b".to_vec(), b"%c".to_vec()];
    let merged = states(runtime, persistent);
    assert_eq!(merged.len(), 3);
    assert_eq!(merged[0].file_name, b"%a".to_vec());
    assert!(merged[0].runtime && merged[0].running && !merged[0].persistent);
    assert_eq!(merged[1].file_name, b"%b".to_vec());
    assert!(merged[1].runtime && !merged[1].running && merged[1].persistent);
    assert_eq!(merged[2].file_name, b"%c".to_vec());
    assert!(!merged[2].runtime && merged[2].persistent);
}

#[test]
fn tasks_choice_prefers_newer_file() {
    let rp = b"/rt/%a".to_vec();
    let pp = b"/st/%a".to_vec();
    let (c, errs) = tasks_choice(
        Meta::IsFile { modified: 10 },
        Meta::IsFile { modified: 20 },
        rp.clone(),
        pp.clone(),
    );
    assert_eq!(c, Some(Directory::Persistent));
    assert!(errs.is_empty());
    // A tie keeps the runtime file.
    let (c, _) = tasks_choice(
        Meta::IsFile { modified: 20 },
        Meta::IsFile { modified: 20 },
        rp.clone(),
        pp.clone(),
    );
    assert_eq!(c, Some(Directory::Runtime));
}

#[test]
fn tasks_choice_collects_probe_errors() {
    let rp = b"/rt/%a".to_vec();
    let pp = b"/st/%a".to_vec();
    let (c, errs) = tasks_choice(Meta::Missing, Meta::IsFile { modified: 1 }, rp.clone(), pp.clone());
    assert_eq!(c, Some(Directory::Persistent));
    assert_eq!(errs.len(), 1);
    assert!(matches!(&errs[0], Error::NotFound(p) if *p == rp));
    let (c, errs) = tasks_choice(Meta::NotFile, Meta::Failed(String::from("boom")), rp.clone(), pp.clone());
    assert_eq!(c, None);
    assert_eq!(errs.len(), 2);
    assert!(matches!(&errs[0], Error::NotFile(p) if *p == rp));
    assert!(matches!(&errs[1], Error::Metadata { path, io } if *path == pp && io == "boom"));
}

#[test]
fn assemble_tasks_outcomes() {
    let ts = vec![Task { status: Status::Waiting, code: 0, time: b"t".to_vec(), path: b"/a".to_vec() }];
    match assemble_tasks(Some(Ok(ts)), Vec::new()) {
        TasksResult::Parsed { tasks, warnings } => {
            assert_eq!(tasks.len(), 1);
            assert!(warnings.is_empty());
        },
        other => panic!("expected the parsed tasks, got {:?}", other),
    }
    match assemble_tasks(Some(Err(Error::NotFound(b"/x".to_vec()))), Vec::new()) {
        TasksResult::ParseFailed { errors } => assert_eq!(errors.len(), 1),
        other => panic!("expected the parse failure, got {:?}", other),
    }
    match assemble_tasks(None, vec![Error::NotFound(b"/x".to_vec())]) {
        TasksResult::Unreadable { errors } => assert_eq!(errors.len(), 1),
        other => panic!("expected no readable file, got {:?}", other),
    }
}

#[test]
fn monitor_classifies_events() {
    let e = monitor_map(RawEvent::Modify, Kind::Runtime, b"%a".to_vec());
    assert_eq!(e.event, Event::Modified);
    assert_eq!(e.kind, Kind::Runtime);
    assert_eq!(e.file_name, b"%a".to_vec());
    assert_eq!(monitor_map(RawEvent::Create, Kind::Persistent, Vec::new()).event, Event::New);
    assert_eq!(monitor_map(RawEvent::MovedTo, Kind::Runtime, Vec::new()).event, Event::New);
    assert_eq!(monitor_map(RawEvent::Delete, Kind::Runtime, Vec::new()).event, Event::Removed);
    assert_eq!(monitor_map(RawEvent::MovedFrom, Kind::Runtime, Vec::new()).event, Event::Removed);
    assert_eq!(monitor_map(RawEvent::CloseWrite, Kind::Runtime, Vec::new()).event, Event::Closed);
    assert_eq!(monitor_map(RawEvent::Other, Kind::Runtime, Vec::new()).event, Event::Unknown);
}

fn sample_app() -> App {
    let states = vec![rt_state(b"%x%b", true), rt_state(b"%x%a", false)];
    App::new(states, None)
}

#[test]
fn app_sorts_entries_by_decoded_path() {
    let app = sample_app();
    assert_eq!(app.state_entries.len(), 2);
    assert_eq!(app.state_entries[0].name, b"/x/a".to_vec());
    assert_eq!(app.state_entries[1].name, b"/x/b".to_vec());
    assert_eq!(app.ui.state_list.len, 2);
    assert_eq!(app.ui.selection, Selection::StateList);
    assert_eq!(app.ui.state_list.state, Some(0));
}

#[test]
fn app_focuses_table_for_single_entry() {
    let app = App::new(vec![rt_state(b"%only", false)], None);
    assert_eq!(app.ui.selection, Selection::TaskTable);
}

#[test]
fn app_starts_on_named_target() {
    let states = vec![rt_state(b"%x%b", false), rt_state(b"%x%a", false)];
    let app = App::new(states, Some(b"/x/b".to_vec()));
    assert_eq!(app.ui.state_list.state, Some(1));
    let states = vec![rt_state(b"%x%b", false), rt_state(b"%x%a", false)];
    let app = App::new(states, Some(b"/nowhere".to_vec()));
    assert_eq!(app.ui.state_list.state, Some(0));
}

#[test]
fn modify_of_selected_target_refreshes() {
    let app = sample_app();
    let selected = app.state_entries[0].state.file_name.clone();
    let ev = StateEvent { event: Event::Modified, kind: Kind::Runtime, file_name: selected };
    assert!(matches!(app.handle_fs(Some(ev)), Action::RefreshTasks));
    let ev = StateEvent { event: Event::Modified, kind: Kind::Runtime, file_name: b"%other".to_vec() };
    assert!(matches!(app.handle_fs(Some(ev)), Action::Tick));
    assert!(matches!(app.handle_fs(None), Action::Tick));
}

#[test]
fn watcher_events_become_state_deltas() {
    let app = sample_app();
    let ev = StateEvent { event: Event::New, kind: Kind::Runtime, file_name: b"%n".to_vec() };
    match app.handle_fs(Some(ev)) {
        Action::AddState(s) => assert!(s.runtime && s.running && !s.persistent),
        other => panic!("expected an addition, got {:?}", other),
    }
    let ev = StateEvent { event: Event::New, kind: Kind::Persistent, file_name: b"%n".to_vec() };
    match app.handle_fs(Some(ev)) {
        Action::AddState(s) => assert!(!s.runtime && !s.running && s.persistent),
        other => panic!("expected an addition, got {:?}", other),
    }
    let ev = StateEvent { event: Event::Removed, kind: Kind::Runtime, file_name: b"%n".to_vec() };
    match app.handle_fs(Some(ev)) {
        Action::RemoveState(s) => assert!(s.runtime && s.running && !s.persistent),
        other => panic!("expected a removal, got {:?}", other),
    }
    let ev = StateEvent { event: Event::Closed, kind: Kind::Runtime, file_name: b"%n".to_vec() };
    match app.handle_fs(Some(ev)) {
        Action::RemoveState(s) => assert!(!s.runtime && s.running && !s.persistent),
        other => panic!("expected a running-flag removal, got {:?}", other),
    }
    let ev = StateEvent { event: Event::Closed, kind: Kind::Persistent, file_name: b"%n".to_vec() };
    assert!(matches!(app.handle_fs(Some(ev)), Action::Tick));
}

#[test]
fn add_state_merges_or_appends() {
    let mut app = sample_app();
    app.add_state_unchecked(State::new(b"%x%a".to_vec()).persistent());
    assert_eq!(app.state_entries.len(), 2);
    let merged = &app.state_entries[0].state;
    assert!(merged.runtime && merged.persistent);
    app.add_state_unchecked(State::new(b"%new".to_vec()).persistent());
    assert_eq!(app.state_entries.len(), 3);
    assert_eq!(app.ui.state_list.len, 3);
}

#[test]
fn entry_vanishes_only_when_both_files_do() {
    let mut app = sample_app();
    app.add_state_unchecked(State::new(b"%x%a".to_vec()).persistent());
    // Its runtime file disappears: the persistent one keeps it alive.
    let refresh = app.remove_state_unchecked(State::new(b"%x%a".to_vec()).runtime().running());
    assert!(!refresh);
    assert_eq!(app.state_entries.len(), 2);
    assert!(app.state_entries[0].state.persistent && !app.state_entries[0].state.runtime);
    // The persistent file disappears too: now the entry goes.
    let refresh = app.remove_state_unchecked(State::new(b"%x%a".to_vec()).persistent());
    assert!(refresh);
    assert_eq!(app.state_entries.len(), 1);
    assert_eq!(app.ui.state_list.len, 1);
    assert_eq!(app.state_entries[0].state.file_name, b"%x%b".to_vec());
}

#[test]
fn removing_tail_entry_steps_selection_back() {
    let mut app = sample_app();
    app.ui.state_list.select(1);
    let refresh = app.remove_state_unchecked(rt_state(b"%x%b", true));
    assert!(refresh);
    assert_eq!(app.state_entries.len(), 1);
    assert_eq!(app.ui.state_list.state, Some(0));
}

#[test]
fn lock_release_downgrades_running_rows() {
    let mut app = sample_app();
    // Give the selected, locked target a running projection first.
    let tasks = vec![Task {
        status: Status::Running,
        code: 0,
        time: b"2024-01-01T00:00:00Z".to_vec(),
        path: b"/x/a/child".to_vec(),
    }];
    // Its entry is running, so the row stays running.
    app.add_state_unchecked(State::new(b"%x%a".to_vec()).running());
    app.refresh_tasks(ReadOutcome::Parsed(tasks, Vec::new()));
    assert_eq!(app.task_entries.len(), 1);
    assert_eq!(app.task_entries[0].status, Status::Running);
    // The lock is released: the running row downgrades in place.
    let refresh = app.remove_state_unchecked(State::new(b"%x%a".to_vec()).running());
    assert!(!refresh);
    assert_eq!(app.task_entries[0].status, Status::Unknown);
}

#[test]
fn stale_running_rows_read_as_unknown() {
    let mut app = sample_app();
    // The selected target /x/a is not locked.
    let tasks = vec![
        Task { status: Status::Running, code: 0, time: b"t".to_vec(), path: b"/x/a/one".to_vec() },
        Task { status: Status::Success, code: 0, time: b"t".to_vec(), path: b"/x/a/two".to_vec() },
    ];
    app.refresh_tasks(ReadOutcome::Parsed(tasks, Vec::new()));
    assert_eq!(app.task_entries.len(), 2);
    assert_eq!(app.task_entries[0].status, Status::Unknown);
    assert_eq!(app.task_entries[1].status, Status::Success);
    assert_eq!(app.ui.task_table.len, 2);
    assert!(app.last_error.is_none());
}

#[test]
fn unreadable_target_empties_projection_with_banner() {
    let mut app = sample_app();
    app.refresh_tasks(ReadOutcome::Unreadable(vec![String::from("no state file was found")]));
    assert!(app.task_entries.is_empty());
    assert_eq!(app.ui.task_table.len, 0);
    let banner = app.last_error.as_ref().expect("a banner");
    assert_eq!(banner.message, "No state file was found");
    assert!(matches!(banner.severity, Severity::High));
}

#[test]
fn parse_failure_keeps_previous_projection() {
    let mut app = sample_app();
    let tasks = vec![
        Task { status: Status::Success, code: 0, time: b"t".to_vec(), path: b"/x/a/one".to_vec() },
    ];
    app.refresh_tasks(ReadOutcome::Parsed(tasks, Vec::new()));
    assert_eq!(app.task_entries.len(), 1);
    // A rewrite races the read: the parse fails, but the projection keeps
    // its previous rows and the banner stays low.
    app.refresh_tasks(ReadOutcome::ParseFailed(vec![String::from("couldn't parse a timestamp")]));
    assert_eq!(app.task_entries.len(), 1);
    assert_eq!(app.task_entries[0].status, Status::Success);
    assert_eq!(app.ui.task_table.len, 1);
    let banner = app.last_error.as_ref().expect("a banner");
    assert_eq!(banner.message, "Couldn't parse a timestamp");
    assert!(matches!(banner.severity, Severity::Low));
}

#[test]
fn keyboard_drives_cursor_and_focus() {
    let mut app = sample_app();
    assert!(matches!(app.handle_keyboard(Key::Char('q'), true), Action::Quit));
    assert!(matches!(app.handle_keyboard(Key::Esc, true), Action::Quit));
    assert!(matches!(app.handle_keyboard(Key::Char('q'), false), Action::Tick));
    assert!(matches!(app.handle_keyboard(Key::Char('j'), true), Action::RefreshTasks));
    assert_eq!(app.ui.state_list.state, Some(1));
    assert!(matches!(app.handle_keyboard(Key::Up, true), Action::RefreshTasks));
    assert_eq!(app.ui.state_list.state, Some(0));
    // Wrap-around: stepping back from the top lands on the bottom row.
    assert!(matches!(app.handle_keyboard(Key::Char('k'), true), Action::RefreshTasks));
    assert_eq!(app.ui.state_list.state, Some(1));
    assert!(matches!(app.handle_keyboard(Key::Other, true), Action::Tick));
}

#[test]
fn focus_needs_task_rows() {
    let mut app = sample_app();
    assert!(matches!(app.handle_keyboard(Key::Right, true), Action::Tick));
    assert_eq!(app.ui.selection, Selection::StateList);
    let tasks = vec![Task { status: Status::Waiting, code: 0, time: b"t".to_vec(), path: b"/p".to_vec() }];
    app.refresh_tasks(ReadOutcome::Parsed(tasks, Vec::new()));
    assert!(matches!(app.handle_keyboard(Key::Right, true), Action::Tick));
    assert_eq!(app.ui.selection, Selection::TaskTable);
    assert_eq!(app.ui.task_table.state, Some(0));
    assert!(matches!(app.handle_keyboard(Key::Tab, true), Action::Tick));
    assert_eq!(app.ui.selection, Selection::StateList);
}

#[test]
fn ui_event_routing() {
    let mut app = sample_app();
    assert!(matches!(app.handle_ui(None), Action::Tick));
    assert!(matches!(app.handle_ui(Some(UiEvent::Other)), Action::Tick));
    assert!(matches!(
        app.handle_ui(Some(UiEvent::Key { code: Key::Esc, press: true })),
        Action::Quit
    ));
}

#[test]
fn beautify_prefixes_continuation_lines() {
    let s = String::from("top\ncause");
    assert_eq!(beautify_newline(s), "top\n\u{21b3} cause");
    assert_eq!(beautify_newline(String::from("flat")), "flat");
}

#[test]
fn banner_capitalises_first_letter() {
    let e = ErrorEntry::new(String::from("unable to open"), Severity::Low);
    assert_eq!(e.message, "Unable to open");
    let e = ErrorEntry::new(String::from("Already fine"), Severity::Low);
    assert_eq!(e.message, "Already fine");
    let e = ErrorEntry::new(String::new(), Severity::High);
    assert_eq!(e.message, "");
    let e = ErrorEntry::new(String::from("\u{e9}tat"), Severity::Low);
    assert_eq!(e.message, "\u{e9}tat");
}

#[test]
fn spinner_wraps_around() {
    let mut s = Spinner::new(ARROW);
    assert_eq!(s.current(), "\u{25b9}");
    s.next();
    assert_eq!(s.current(), "\u{25b8}");
    for _ in 0..4 {
        s.next();
    }
    assert_eq!(s.current(), "\u{25b9}");
    assert_eq!(s.current, 0);
    let b = Spinner::new(BRAILE);
    assert_eq!(b.current(), "\u{28e7}");
}

#[test]
fn entry_rows_carry_their_sources() {
    let e = StateEntry::from(State::new(b"%x%a".to_vec()).runtime());
    assert_eq!(e.name, b"/x/a".to_vec());
    assert!(e.state.runtime);
    let t = TaskEntry::from(Task::new(b"/x/a/child".to_vec()));
    assert_eq!(t.status, Status::Waiting);
    assert_eq!(t.path, b"/x/a/child".to_vec());
    // A fresh task's instant renders in local time, never empty.
    assert!(!t.time.is_empty());
}

#[test]
fn interval_times_out_and_restarts() {
    let mut i = Interval::new(1_000, 100);
    assert_eq!(i.delta(1_040), 60);
    assert!(!i.is_late(1_099));
    assert!(i.is_late(1_100));
    assert_eq!(i.baseline, 1_100);
    assert!(!i.is_late(1_150));
    // A clock that went backwards yields the whole period again.
    assert_eq!(i.delta(900), 100);
}
