use run_stars::runner::{
    exit_change, lex_le_bytes, plan, preflight, sort_paths, spawn_change, ExitReport, FileError,
};
use run_stars::write::{apply, coalesce, Delta};
use run_stars::{StateChange, Status, Task};

fn task(path: &[u8]) -> Task {
    Task { status: Status::Waiting, code: 0, time: b"2024-01-01T00:00:00Z".to_vec(), path: path.to_vec() }
}

fn delta(index: usize, status: Status, code: u8, time: &[u8]) -> Delta {
    Delta { index, change: StateChange { status, code, time: time.to_vec() } }
}

#[test]
fn apply_updates_one_task_in_place() {
    let mut tasks = vec![task(b"/a"), task(b"/b")];
    let change = StateChange { status: Status::Running, code: 0, time: b"2024-01-01T00:00:01Z".to_vec() };
    apply(&mut tasks, 1, &change);
    assert_eq!(tasks[0].status, Status::Waiting);
    assert_eq!(tasks[1].status, Status::Running);
    assert_eq!(tasks[1].time, b"2024-01-01T00:00:01Z".to_vec());
    assert_eq!(tasks[1].path, b"/b".to_vec());
}

#[test]
fn coalesce_keeps_latest_delta_per_index() {
    let mut tasks = vec![task(b"/a"), task(b"/b")];
    let batch = vec![
        delta(0, Status::Running, 0, b"2024-01-01T00:00:01Z"),
        delta(1, Status::Running, 0, b"2024-01-01T00:00:02Z"),
        delta(0, Status::Success, 0, b"2024-01-01T00:00:03Z"),
    ];
    coalesce(&mut tasks, &batch);
    assert_eq!(tasks[0].status, Status::Success);
    assert_eq!(tasks[0].time, b"2024-01-01T00:00:03Z".to_vec());
    assert_eq!(tasks[1].status, Status::Running);
    assert_eq!(tasks[0].path, b"/a".to_vec());
    assert_eq!(tasks[1].path, b"/b".to_vec());
}

#[test]
fn coalesced_file_reflects_latest_state() {
    let mut tasks = vec![task(b"/dir/fail")];
    let batch = vec![
        delta(0, Status::Running, 0, b"2024-01-01T00:00:01Z"),
        delta(0, Status::Failure, 7, b"2024-01-01T00:00:02Z"),
    ];
    coalesce(&mut tasks, &batch);
    let mut buf = Vec::new();
    run_stars::write::write(&mut buf, &tasks);
    assert_eq!(buf, b"F,7,2024-01-01T00:00:02Z,/dir/fail\n".to_vec());
}

#[test]
fn lex_compare_bytes() {
    assert!(lex_le_bytes(&b"/a".to_vec(), &b"/b".to_vec()));
    assert!(!lex_le_bytes(&b"/b".to_vec(), &b"/a".to_vec()));
    assert!(lex_le_bytes(&b"/a".to_vec(), &b"/a".to_vec()));
    assert!(lex_le_bytes(&b"/a".to_vec(), &b"/ab".to_vec()));
    assert!(!lex_le_bytes(&b"/ab".to_vec(), &b"/a".to_vec()));
}

#[test]
fn sort_paths_ascending_and_descending() {
    let paths = vec![b"/c".to_vec(), b"/a".to_vec(), b"/b".to_vec()];
    let asc = sort_paths(&paths, false);
    assert_eq!(asc, vec![b"/a".to_vec(), b"/b".to_vec(), b"/c".to_vec()]);
    let desc = sort_paths(&paths, true);
    assert_eq!(desc, vec![b"/c".to_vec(), b"/b".to_vec(), b"/a".to_vec()]);
}

#[test]
fn plan_orders_fresh_tasks() {
    let paths = vec![b"/dir/b".to_vec(), b"/dir/a".to_vec()];
    let tasks = plan(&paths, false);
    assert_eq!(tasks.len(), 2);
    assert_eq!(tasks[0].path, b"/dir/a".to_vec());
    assert_eq!(tasks[1].path, b"/dir/b".to_vec());
    assert_eq!(tasks[0].status, Status::Waiting);
    assert_eq!(tasks[0].code, 0);
    let reversed = plan(&paths, true);
    assert_eq!(reversed[0].path, b"/dir/b".to_vec());
    assert_eq!(reversed[1].path, b"/dir/a".to_vec());
}

#[test]
fn plan_of_empty_directory_is_empty() {
    let tasks = plan(&Vec::new(), false);
    assert!(tasks.is_empty());
    let mut buf = Vec::new();
    run_stars::write::write(&mut buf, &tasks);
    assert!(buf.is_empty());
}

#[test]
fn preflight_live_when_created_and_locked() {
    assert!(matches!(preflight(true, true, b"/rt/f".to_vec(), String::new()), Ok(true)));
}

#[test]
fn preflight_degrades_when_create_fails() {
    assert!(matches!(preflight(false, false, b"/rt/f".to_vec(), String::new()), Ok(false)));
}

#[test]
fn preflight_rejects_contended_lock() {
    match preflight(true, false, b"/rt/f".to_vec(), String::from("busy")) {
        Err(FileError::RuntimeLock { path, io }) => {
            assert_eq!(path, b"/rt/f".to_vec());
            assert_eq!(io, "busy");
        },
        other => panic!("expected a runtime-lock error, got {:?}", other),
    }
}

#[test]
fn spawn_outcome_deltas() {
    let ok = spawn_change(true, b"t".to_vec());
    assert_eq!(ok.status, Status::Running);
    assert_eq!(ok.code, 0);
    let bad = spawn_change(false, b"t".to_vec());
    assert_eq!(bad.status, Status::Failure);
    assert_eq!(bad.code, 1);
}

#[test]
fn exit_outcome_deltas() {
    let s = exit_change(&ExitReport::Exited { success: true, code: Some(0) }, b"t".to_vec());
    assert_eq!(s.status, Status::Success);
    assert_eq!(s.code, 0);
    let f = exit_change(&ExitReport::Exited { success: false, code: Some(7) }, b"t".to_vec());
    assert_eq!(f.status, Status::Failure);
    assert_eq!(f.code, 7);
    let sig = exit_change(&ExitReport::Exited { success: false, code: None }, b"t".to_vec());
    assert_eq!(sig.status, Status::Failure);
    assert_eq!(sig.code, 1);
    let werr = exit_change(&ExitReport::WaitFailed, b"t".to_vec());
    assert_eq!(werr.status, Status::Failure);
    assert_eq!(werr.code, 1);
    let big = exit_change(&ExitReport::Exited { success: false, code: Some(300) }, b"t".to_vec());
    assert_eq!(big.code, 255);
}
