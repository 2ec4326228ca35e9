//! The writer pipeline: serialising task lists and coalescing state deltas.
//!
//! One consumer drains every delta that is already available, applies each to
//! the task vector at its index, and only then rewrites the state file from
//! the whole vector, so bursts of deltas collapse into one rewrite and the
//! file is always a snapshot of a consistent point in time.

use vstd::prelude::*;

use crate::{ChangeV, StateChange, Task, TaskV, LINE_BYTE, SPLIT_BYTE};

verus! {

/// Decimal rendering of an exit code: no sign, no leading zeros.
pub open spec fn spec_code_digits(n: u8) -> Seq<u8> {
    if n < 10 {
        seq![(48 + n) as u8]
    } else if n < 100 {
        seq![(48 + n / 10) as u8, (48 + n % 10) as u8]
    } else {
        seq![(48 + n / 100) as u8, (48 + (n / 10) % 10) as u8, (48 + n % 10) as u8]
    }
}

/// One serialised record: `<status>,<code>,<time>,<path>` ended by a newline.
pub open spec fn spec_line(t: TaskV) -> Seq<u8> {
    seq![t.status.spec_byte(), SPLIT_BYTE] + spec_code_digits(t.code) + seq![SPLIT_BYTE] + t.time
        + seq![SPLIT_BYTE] + t.path + seq![LINE_BYTE]
}

/// The serialised form of a task list: its records in order.
pub open spec fn spec_serialize(ts: Seq<TaskV>) -> Seq<u8>
    decreases ts.len(),
{
    if ts.len() == 0 {
        Seq::empty()
    } else {
        spec_serialize(ts.drop_last()) + spec_line(ts.last())
    }
}

/// Render an exit code in decimal.
pub fn code_digits(n: u8) -> (r: Vec<u8>)
    ensures
        r@ == spec_code_digits(n),
{
    let mut r: Vec<u8> = Vec::new();
    if n < 10 {
        r.push(48 + n);
    } else if n < 100 {
        r.push(48 + n / 10);
        r.push(48 + n % 10);
    } else {
        r.push(48 + n / 100);
        r.push(48 + (n / 10) % 10);
        r.push(48 + n % 10);
    }
    assert(r@ =~= spec_code_digits(n));
    r
}

/// Serialise the task list into the buffer, replacing its contents.
pub fn write(buffer: &mut Vec<u8>, tasks: &Vec<Task>)
    ensures
        final(buffer)@ == spec_serialize(tasks.deep_view()),
{
    buffer.clear();
    let ghost all = tasks.deep_view();
    let mut i: usize = 0;
    proof {
        assert(all.take(0) =~= Seq::<TaskV>::empty());
    }
    while i < tasks.len()
        invariant
            i <= tasks.len(),
            all == tasks.deep_view(),
            buffer@ == spec_serialize(all.take(i as int)),
        decreases tasks.len() - i,
    {
        let t = &tasks[i];
        buffer.push(t.status.byte());
        buffer.push(SPLIT_BYTE);
        let mut code = code_digits(t.code);
        buffer.append(&mut code);
        buffer.push(SPLIT_BYTE);
        buffer.extend_from_slice(t.time.as_slice());
        buffer.push(SPLIT_BYTE);
        buffer.extend_from_slice(t.path.as_slice());
        buffer.push(LINE_BYTE);
        proof {
            assert(all.take(i + 1).drop_last() =~= all.take(i as int));
            assert(all.take(i + 1).last() == all[i as int]);
            assert(all[i as int] == t@);
            assert(buffer@ =~= spec_serialize(all.take(i as int)) + spec_line(t@));
        }
        i = i + 1;
    }
    proof {
        assert(all.take(tasks.len() as int) =~= all);
    }
}

/// The mathematical value of one delta: which task, and what it becomes.
pub ghost struct DeltaV {
    pub index: int,
    pub change: ChangeV,
}

/// One message of the scheduler-to-writer channel: a task index and its new
/// state.
pub struct Delta {
    pub index: usize,
    pub change: StateChange,
}

impl DeepView for Delta {
    type V = DeltaV;

    open spec fn deep_view(&self) -> DeltaV {
        DeltaV { index: self.index as int, change: self.change@ }
    }
}

/// The task list after one delta: status, code and time are replaced at the
/// delta's index, the path stays, every other task is untouched.
pub open spec fn spec_apply(ts: Seq<TaskV>, index: int, c: ChangeV) -> Seq<TaskV> {
    if 0 <= index < ts.len() {
        ts.update(
            index,
            TaskV { status: c.status, code: c.code, time: c.time, path: ts[index].path },
        )
    } else {
        ts
    }
}

/// The task list after a whole batch of deltas, applied in order.
pub open spec fn spec_apply_all(ts: Seq<TaskV>, ds: Seq<DeltaV>) -> Seq<TaskV>
    decreases ds.len(),
{
    if ds.len() == 0 {
        ts
    } else {
        spec_apply(spec_apply_all(ts, ds.drop_last()), ds.last().index, ds.last().change)
    }
}

/// The latest delta of a batch for one index, if the batch holds any.
pub open spec fn spec_last_change(ds: Seq<DeltaV>, i: int) -> Option<ChangeV>
    decreases ds.len(),
{
    if ds.len() == 0 {
        None
    } else if ds.last().index == i {
        Some(ds.last().change)
    } else {
        spec_last_change(ds.drop_last(), i)
    }
}

/// Apply one delta to the task vector.
pub fn apply(tasks: &mut Vec<Task>, index: usize, change: &StateChange)
    requires
        index < old(tasks).len(),
    ensures
        final(tasks).deep_view() == spec_apply(old(tasks).deep_view(), index as int, change@),
        final(tasks).len() == old(tasks).len(),
{
    let path = tasks[index].path.clone();
    let t = Task { status: change.status, code: change.code, time: change.time.clone(), path };
    tasks.set(index, t);
    proof {
        assert(tasks.deep_view() =~= spec_apply(
            old(tasks).deep_view(),
            index as int,
            change@,
        ));
    }
}

/// Apply a drained batch of deltas in order.
pub fn coalesce(tasks: &mut Vec<Task>, batch: &Vec<Delta>)
    requires
        forall|j: int| 0 <= j < batch.len() ==> (#[trigger] batch[j].index) < old(tasks).len(),
    ensures
        final(tasks).deep_view() == spec_apply_all(old(tasks).deep_view(), batch.deep_view()),
        final(tasks).len() == old(tasks).len(),
{
    let ghost ts0 = old(tasks).deep_view();
    let ghost ds = batch.deep_view();
    let mut i: usize = 0;
    proof {
        assert(ds.take(0) =~= Seq::<DeltaV>::empty());
    }
    while i < batch.len()
        invariant
            i <= batch.len(),
            ts0 == old(tasks).deep_view(),
            ds == batch.deep_view(),
            forall|j: int| 0 <= j < batch.len() ==> (#[trigger] batch[j].index) < old(
                tasks,
            ).len(),
            tasks.len() == old(tasks).len(),
            tasks.deep_view() == spec_apply_all(ts0, ds.take(i as int)),
        decreases batch.len() - i,
    {
        let d = &batch[i];
        apply(tasks, d.index, &d.change);
        proof {
            assert(ds.take(i + 1).drop_last() =~= ds.take(i as int));
            assert(ds.take(i + 1).last() == ds[i as int]);
            assert(ds[i as int] == batch[i as int].deep_view());
        }
        i = i + 1;
    }
    proof {
        assert(ds.take(batch.len() as int) =~= ds);
    }
}

/// Coalescing correctness: after the writer applies a batch of deltas in
/// order, every task holds the latest delta for its index — keeping its
/// path — and a task with no delta is untouched. The task list never changes
/// length.
pub proof fn lemma_coalescing(ts: Seq<TaskV>, ds: Seq<DeltaV>, i: int)
    requires
        0 <= i < ts.len(),
    ensures
        spec_apply_all(ts, ds).len() == ts.len(),
        spec_apply_all(ts, ds)[i].path == ts[i].path,
        spec_last_change(ds, i) matches Some(c) ==> spec_apply_all(ts, ds)[i] == (TaskV {
            status: c.status,
            code: c.code,
            time: c.time,
            path: ts[i].path,
        }),
        spec_last_change(ds, i) is None ==> spec_apply_all(ts, ds)[i] == ts[i],
    decreases ds.len(),
{
    if ds.len() == 0 {
    } else {
        lemma_coalescing(ts, ds.drop_last(), i);
        let prev = spec_apply_all(ts, ds.drop_last());
        let d = ds.last();
        assert(spec_apply_all(ts, ds) == spec_apply(prev, d.index, d.change));
    }
}

} // verus!
