//! The runner's decision core: planning the task set, the pre-flight
//! around the runtime file and its lock, and the mapping from child-process
//! outcomes to state deltas.
//!
//! Everything here computes from plain values; listing directories,
//! spawning children and locking files happens outside the library and
//! hands its outcomes in.

use vstd::prelude::*;

use vstd::seq_lib::lemma_multiset_commutative;

use crate::time::is_timestamp;
use crate::{StateChange, Status, Task, TaskV, LINE_BYTE, SPLIT_BYTE};

verus! {

/// Lexicographic order on byte strings.
pub open spec fn lex_le(a: Seq<u8>, b: Seq<u8>) -> bool
    decreases a.len(),
{
    if a.len() == 0 {
        true
    } else if b.len() == 0 {
        false
    } else if a[0] < b[0] {
        true
    } else if a[0] > b[0] {
        false
    } else {
        lex_le(a.skip(1), b.skip(1))
    }
}

/// Any two byte strings compare one way or the other.
pub proof fn lemma_lex_total(a: Seq<u8>, b: Seq<u8>)
    ensures
        lex_le(a, b) || lex_le(b, a),
    decreases a.len(),
{
    if a.len() == 0 || b.len() == 0 {
    } else if a[0] == b[0] {
        lemma_lex_total(a.skip(1), b.skip(1));
    }
}

/// Lexicographic order chains.
pub proof fn lemma_lex_trans(a: Seq<u8>, b: Seq<u8>, c: Seq<u8>)
    requires
        lex_le(a, b),
        lex_le(b, c),
    ensures
        lex_le(a, c),
    decreases a.len(),
{
    if a.len() == 0 {
    } else if b.len() == 0 {
    } else if c.len() == 0 {
    } else {
        if a[0] == b[0] && b[0] == c[0] {
            lemma_lex_trans(a.skip(1), b.skip(1), c.skip(1));
        }
    }
}

/// Compare two byte paths lexicographically.
pub fn lex_le_bytes(a: &Vec<u8>, b: &Vec<u8>) -> (r: bool)
    ensures
        r == lex_le(a@, b@),
{
    let mut i: usize = 0;
    proof {
        assert(a@.skip(0) =~= a@);
        assert(b@.skip(0) =~= b@);
    }
    while i < a.len() && i < b.len()
        invariant
            i <= a.len(),
            i <= b.len(),
            lex_le(a@, b@) == lex_le(a@.skip(i as int), b@.skip(i as int)),
        decreases a.len() - i,
    {
        proof {
            assert(a@.skip(i as int)[0] == a@[i as int]);
            assert(b@.skip(i as int)[0] == b@[i as int]);
            assert(a@.skip(i as int).skip(1) =~= a@.skip(i + 1));
            assert(b@.skip(i as int).skip(1) =~= b@.skip(i + 1));
        }
        if a[i] < b[i] {
            return true;
        }
        if a[i] > b[i] {
            return false;
        }
        i = i + 1;
    }
    proof {
        if i >= a.len() {
            assert(a@.skip(i as int).len() == 0);
        } else {
            assert(b@.skip(i as int).len() == 0);
            assert(a@.skip(i as int).len() > 0);
        }
    }
    a.len() <= b.len()
}

/// Inserting an element anywhere adds exactly it to the multiset.
proof fn lemma_to_multiset_insert<A>(s: Seq<A>, k: int, v: A)
    requires
        0 <= k <= s.len(),
    ensures
        s.insert(k, v).to_multiset() =~= s.to_multiset().insert(v),
{
    broadcast use vstd::seq_lib::group_to_multiset_ensures;
    broadcast use vstd::multiset::group_multiset_axioms;

    let x = s.take(k);
    let y = s.skip(k);
    assert(s =~= x + y);
    assert(s.insert(k, v) =~= x.push(v) + y);
    lemma_multiset_commutative(x.push(v), y);
    lemma_multiset_commutative(x, y);
    assert(x.push(v).to_multiset() =~= x.to_multiset().insert(v));
}

/// Ascending by path, weakly: every earlier task's path compares at or
/// before every later one's.
pub open spec fn spec_sorted_by_path(ts: Seq<TaskV>) -> bool {
    forall|i: int, j: int|
        0 <= i <= j < ts.len() ==> lex_le(#[trigger] ts[i].path, #[trigger] ts[j].path)
}

/// Descending by path, weakly.
pub open spec fn spec_rsorted_by_path(ts: Seq<TaskV>) -> bool {
    forall|i: int, j: int|
        0 <= i <= j < ts.len() ==> lex_le(#[trigger] ts[j].path, #[trigger] ts[i].path)
}

/// Ascending order on bare byte paths.
pub open spec fn spec_sorted_paths(ps: Seq<Seq<u8>>) -> bool {
    forall|i: int, j: int| 0 <= i <= j < ps.len() ==> lex_le(#[trigger] ps[i], #[trigger] ps[j])
}

/// Sort the enumerated paths ascending, or descending when reversed.
pub fn sort_paths(paths: &Vec<Vec<u8>>, reverse: bool) -> (r: Vec<Vec<u8>>)
    ensures
        r.deep_view().to_multiset() == paths.deep_view().to_multiset(),
        r.len() == paths.len(),
        !reverse ==> spec_sorted_paths(r.deep_view()),
        reverse ==> spec_sorted_paths(r.deep_view().reverse()),
{
    broadcast use vstd::seq_lib::group_to_multiset_ensures;

    let mut out: Vec<Vec<u8>> = Vec::new();
    let mut idx: usize = 0;
    proof {
        assert(paths.deep_view().take(0) =~= Seq::<Seq<u8>>::empty());
        assert(out.deep_view() =~= Seq::<Seq<u8>>::empty());
    }
    while idx < paths.len()
        invariant
            idx <= paths.len(),
            out.len() == idx,
            out.deep_view().to_multiset() == paths.deep_view().take(idx as int).to_multiset(),
            spec_sorted_paths(out.deep_view()),
        decreases paths.len() - idx,
    {
        let p = paths[idx].clone();
        proof {
            assert(p@ == paths.deep_view()[idx as int]);
        }
        let ghost dv = out.deep_view();
        proof {
            assert(forall|j: int| 0 <= j < out.len() ==> #[trigger] dv[j] == out@[j]@);
        }
        let mut k: usize = 0;
        while k < out.len() && lex_le_bytes(&out[k], &p)
            invariant
                k <= out.len(),
                dv == out.deep_view(),
                forall|j: int| 0 <= j < out.len() ==> #[trigger] dv[j] == out@[j]@,
                forall|j: int| 0 <= j < k ==> lex_le(#[trigger] dv[j], p@),
            decreases out.len() - k,
        {
            proof {
                assert(dv[k as int] == out@[k as int]@);
            }
            k = k + 1;
        }
        proof {
            if k < out.len() {
                assert(dv[k as int] == out@[k as int]@);
                assert(!lex_le(dv[k as int], p@));
                lemma_lex_total(dv[k as int], p@);
                assert(lex_le(p@, dv[k as int]));
            }
        }
        out.insert(k, p);
        proof {
            broadcast use vstd::seq_lib::group_to_multiset_ensures;

            let new_dv = out.deep_view();
            assert(new_dv =~= dv.insert(k as int, p@));
            lemma_to_multiset_insert(dv, k as int, p@);
            let taken = paths.deep_view().take(idx as int);
            assert(paths.deep_view().take(idx + 1) =~= taken.push(
                paths.deep_view()[idx as int],
            ));
            assert(taken.push(paths.deep_view()[idx as int]).to_multiset() =~= taken.to_multiset()
                .insert(paths.deep_view()[idx as int]));
            assert(new_dv.to_multiset() =~= paths.deep_view().take(idx + 1).to_multiset());
            assert forall|i: int, j: int|
                0 <= i <= j < new_dv.len() implies lex_le(#[trigger] new_dv[i], #[trigger] new_dv[j]) by {
                let ki = k as int;
                if i < ki && j < ki {
                    assert(new_dv[i] == dv[i] && new_dv[j] == dv[j]);
                } else if i < ki && j == ki {
                    assert(new_dv[i] == dv[i] && new_dv[j] == p@);
                } else if i < ki && j > ki {
                    assert(new_dv[i] == dv[i] && new_dv[j] == dv[j - 1]);
                } else if i == ki && j == ki {
                    lemma_lex_total(p@, p@);
                } else if i == ki && j > ki {
                    assert(new_dv[j] == dv[j - 1]);
                    if ki < dv.len() {
                        assert(lex_le(p@, dv[ki]));
                        assert(lex_le(dv[ki], dv[j - 1]));
                        lemma_lex_trans(p@, dv[ki], dv[j - 1]);
                    }
                } else {
                    assert(new_dv[i] == dv[i - 1] && new_dv[j] == dv[j - 1]);
                }
            }
        }
        idx = idx + 1;
    }
    proof {
        assert(paths.deep_view().take(paths.len() as int) =~= paths.deep_view());
    }
    if reverse {
        let mut rev: Vec<Vec<u8>> = Vec::new();
        let mut i: usize = out.len();
        while i > 0
            invariant
                i <= out.len(),
                rev.len() == out.len() - i,
                forall|j: int|
                    0 <= j < rev.len() ==> #[trigger] rev.deep_view()[j] == out.deep_view()[out.len()
                        - 1 - j],
            decreases i,
        {
            i = i - 1;
            let ghost prev = rev.deep_view();
            let c = out[i].clone();
            proof {
                assert(c@ == out.deep_view()[i as int]);
            }
            rev.push(c);
            proof {
                assert(rev.deep_view() =~= prev.push(out.deep_view()[i as int]));
            }
        }
        proof {
            assert(rev.deep_view() =~= out.deep_view().reverse());
            out.deep_view().lemma_reverse_to_multiset();
            assert(rev.deep_view().reverse() =~= out.deep_view());
        }
        rev
    } else {
        out
    }
}

/// Build the run plan: one fresh task per enumerated path, in ascending
/// path order — descending when reversed. This is the order the state file
/// keeps for the whole batch.
pub fn plan(paths: &Vec<Vec<u8>>, reverse: bool) -> (r: Vec<Task>)
    ensures
        r.len() == paths.len(),
        r.deep_view().map_values(|t: TaskV| t.path).to_multiset() == paths.deep_view()
            .to_multiset(),
        !reverse ==> spec_sorted_by_path(r.deep_view()),
        reverse ==> spec_rsorted_by_path(r.deep_view()),
        forall|i: int|
            0 <= i < r.len() ==> (#[trigger] r.deep_view()[i]).status == Status::Waiting
                && r.deep_view()[i].code == 0 && is_timestamp(r.deep_view()[i].time),
        forall|i: int, b: int|
            0 <= i < r.len() && 0 <= b < r.deep_view()[i].time.len() ==> (
            #[trigger] r.deep_view()[i].time[b]) != SPLIT_BYTE && r.deep_view()[i].time[b]
                != LINE_BYTE && r.deep_view()[i].time[b] != 13,
    {
    let sorted = sort_paths(paths, reverse);
    let mut r: Vec<Task> = Vec::new();
    let mut i: usize = 0;
    while i < sorted.len()
        invariant
            i <= sorted.len(),
            r.len() == i,
            forall|j: int|
                0 <= j < i ==> (#[trigger] r.deep_view()[j]).path == sorted.deep_view()[j],
            forall|j: int|
                0 <= j < i ==> (#[trigger] r.deep_view()[j]).status == Status::Waiting
                    && r.deep_view()[j].code == 0 && is_timestamp(r.deep_view()[j].time),
            forall|j: int, b: int|
                0 <= j < i && 0 <= b < r.deep_view()[j].time.len() ==> (
                #[trigger] r.deep_view()[j].time[b]) != SPLIT_BYTE && r.deep_view()[j].time[b]
                    != LINE_BYTE && r.deep_view()[j].time[b] != 13,
        decreases sorted.len() - i,
    {
        let t = Task::new(sorted[i].clone());
        proof {
            assert(sorted.deep_view()[i as int] == sorted@[i as int]@);
        }
        let ghost prev = r.deep_view();
        let ghost tv = t@;
        r.push(t);
        proof {
            assert(r.deep_view() =~= prev.push(tv));
        }
        i = i + 1;
    }
    proof {
        assert(r.deep_view().map_values(|t: TaskV| t.path) =~= sorted.deep_view());
        if reverse {
            let dv = r.deep_view();
            let sp = sorted.deep_view();
            assert forall|i2: int, j2: int|
                0 <= i2 <= j2 < dv.len() implies lex_le(
                #[trigger] dv[j2].path,
                #[trigger] dv[i2].path,
            ) by {
                assert(sp.reverse()[sp.len() - 1 - j2] == sp[j2]);
                assert(sp.reverse()[sp.len() - 1 - i2] == sp[i2]);
                assert(lex_le(sp.reverse()[sp.len() - 1 - j2], sp.reverse()[sp.len() - 1 - i2]));
            }
        }
    }
    r
}

/// What the runner does about a file or the target directory, told apart
/// by stage.
#[derive(Debug)]
pub enum FileError {
    Absolute { path: Vec<u8>, io: String },
    AccessLocation { path: Vec<u8>, io: String },
    CreatePersistant { path: Vec<u8>, io: String },
    WritePersistant { path: Vec<u8>, io: String },
    SyncPersistant { path: Vec<u8>, io: String },
    RuntimeLock { path: Vec<u8>, io: String },
}

/// Everything that can end a run early: a file failure of the runner's own,
/// or a state-protocol failure.
#[derive(Debug)]
pub enum Error {
    File(FileError),
    State(crate::error::Error),
}

/// Decide the runtime sink from the pre-flight outcomes: a created and
/// locked file publishes live state; a file that could not be created at
/// all degrades silently to no live publishing; a created file whose lock
/// is taken means another runner owns this target, which is fatal.
pub fn preflight(create_ok: bool, lock_ok: bool, path: Vec<u8>, io: String) -> (r: Result<
    bool,
    FileError,
>)
    ensures
        match r {
            Ok(live) => live == create_ok && (create_ok ==> lock_ok),
            Err(e) => create_ok && !lock_ok && (e matches FileError::RuntimeLock {
                path: p,
                io: i,
            } && p@ == path@ && i@ == io@),
        },
{
    if !create_ok {
        Ok(false)
    } else if lock_ok {
        Ok(true)
    } else {
        Err(FileError::RuntimeLock { path, io })
    }
}

/// The first delta of a child: running if it spawned, failed with code 1
/// if it did not.
pub fn spawn_change(spawned: bool, time: Vec<u8>) -> (r: StateChange)
    ensures
        spawned ==> r.status == Status::Running && r.code == 0,
        !spawned ==> r.status == Status::Failure && r.code == 1,
        r.time@ == time@,
{
    if spawned {
        StateChange { status: Status::Running, code: 0, time }
    } else {
        StateChange { status: Status::Failure, code: 1, time }
    }
}

/// How a child's ending was observed.
pub enum ExitReport {
    Exited { success: bool, code: Option<i32> },
    WaitFailed,
}

/// An exit code squeezed into a byte.
pub open spec fn spec_clamp_code(c: int) -> u8 {
    if c < 0 {
        0
    } else if c > 255 {
        255
    } else {
        c as u8
    }
}

/// The second delta of a child: success with code zero, or failure with
/// the child's exit code clamped to a byte — code 1 when only a signal or
/// a wait failure is known.
pub fn exit_change(report: &ExitReport, time: Vec<u8>) -> (r: StateChange)
    ensures
        match report {
            ExitReport::Exited { success: true, .. } => r.status == Status::Success && r.code
                == 0,
            ExitReport::Exited { success: false, code: Some(c) } => r.status == Status::Failure
                && r.code == spec_clamp_code(*c as int),
            ExitReport::Exited { success: false, code: None } => r.status == Status::Failure
                && r.code == 1,
            ExitReport::WaitFailed => r.status == Status::Failure && r.code == 1,
        },
        r.time@ == time@,
{
    match report {
        ExitReport::Exited { success: true, .. } => StateChange {
            status: Status::Success,
            code: 0,
            time,
        },
        ExitReport::Exited { success: false, code: Some(c) } => {
            let code: u8 = if *c < 0 {
                0
            } else if *c > 255 {
                255
            } else {
                *c as u8
            };
            StateChange { status: Status::Failure, code, time }
        },
        ExitReport::Exited { success: false, code: None } => StateChange {
            status: Status::Failure,
            code: 1,
            time,
        },
        ExitReport::WaitFailed => StateChange { status: Status::Failure, code: 1, time },
    }
}

/// Ordering is kept: coalescing deltas into a planned task list never moves
/// a task, so a list planned in path order still reads in that order after
/// any batch of deltas — the order the persistent file serialises.
pub proof fn lemma_ordering_kept(ts: Seq<TaskV>, ds: Seq<crate::write::DeltaV>)
    ensures
        crate::write::spec_apply_all(ts, ds).len() == ts.len(),
        forall|i: int|
            0 <= i < ts.len() ==> (#[trigger] crate::write::spec_apply_all(ts, ds)[i]).path
                == ts[i].path,
        spec_sorted_by_path(ts) ==> spec_sorted_by_path(crate::write::spec_apply_all(ts, ds)),
        spec_rsorted_by_path(ts) ==> spec_rsorted_by_path(crate::write::spec_apply_all(ts, ds)),
{
    if ts.len() > 0 {
        assert forall|i: int|
            0 <= i < ts.len() implies (#[trigger] crate::write::spec_apply_all(ts, ds)[i]).path
            == ts[i].path by {
            crate::write::lemma_coalescing(ts, ds, i);
        }
        crate::write::lemma_coalescing(ts, ds, 0);
    } else {
        assert(crate::write::spec_apply_all(ts, ds) =~= ts) by {
            lemma_apply_all_empty(ts, ds);
        }
    }
}

/// Deltas do nothing to an empty task list.
proof fn lemma_apply_all_empty(ts: Seq<TaskV>, ds: Seq<crate::write::DeltaV>)
    requires
        ts.len() == 0,
    ensures
        crate::write::spec_apply_all(ts, ds) == ts,
    decreases ds.len(),
{
    if ds.len() > 0 {
        lemma_apply_all_empty(ts, ds.drop_last());
    }
}

} // verus!
