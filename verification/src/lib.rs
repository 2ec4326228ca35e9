//! Batch executor with live state reporting: the verified core.
//!
//! A runner executes every regular file of a target directory as a child
//! process and publishes per-task status lines to a runtime state file and,
//! at the end, to a persistent state file. A terminal UI watches both state
//! directories and mirrors their contents. This crate holds the shared
//! protocol (path encoding, line format, status alphabet), the runner's
//! planning and coalescing logic, and the UI's reducer, all verified.
//! The thin I/O shells around them live outside the library.

pub mod app;
pub mod error;
pub mod monitor;
pub mod path;
pub mod read;
pub mod runner;
pub mod spinner;
pub mod time;
pub mod ui;
pub mod write;

use vstd::prelude::*;

use crate::time::{is_timestamp, now_timestamp};

verus! {

/// The field separator of a state-file line: `,`.
pub const SPLIT_BYTE: u8 = 44;

/// The line terminator of a state file: `\n`.
pub const LINE_BYTE: u8 = 10;

/// The status alphabet of a task, serialised as a single ASCII byte.
#[derive(Clone, Copy, Debug, PartialEq, Eq, Structural)]
pub enum Status {
    Success,
    Failure,
    Running,
    Waiting,
    Unknown,
}

impl Status {
    /// The byte this status is serialised as.
    pub open spec fn spec_byte(self) -> u8 {
        match self {
            Status::Success => 83,  // 'S'
            Status::Failure => 70,  // 'F'
            Status::Running => 82,  // 'R'
            Status::Waiting => 87,  // 'W'
            Status::Unknown => 85,  // 'U'
        }
    }

    /// The status a byte stands for, if any.
    pub open spec fn spec_of_byte(b: u8) -> Option<Status> {
        if b == 83 {
            Some(Status::Success)
        } else if b == 70 {
            Some(Status::Failure)
        } else if b == 82 {
            Some(Status::Running)
        } else if b == 87 {
            Some(Status::Waiting)
        } else if b == 85 {
            Some(Status::Unknown)
        } else {
            None
        }
    }

    /// Serialise this status as its single-byte code.
    pub fn byte(self) -> (r: u8)
        ensures
            r == self.spec_byte(),
    {
        match self {
            Status::Success => 83,
            Status::Failure => 70,
            Status::Running => 82,
            Status::Waiting => 87,
            Status::Unknown => 85,
        }
    }

    /// Read a status back from its single-byte code.
    pub fn of_byte(b: u8) -> (r: Option<Status>)
        ensures
            r == Status::spec_of_byte(b),
    {
        if b == 83 {
            Some(Status::Success)
        } else if b == 70 {
            Some(Status::Failure)
        } else if b == 82 {
            Some(Status::Running)
        } else if b == 87 {
            Some(Status::Waiting)
        } else if b == 85 {
            Some(Status::Unknown)
        } else {
            None
        }
    }

    /// Reading back the byte of a status yields that status.
    pub proof fn lemma_byte_of_byte(self)
        ensures
            Status::spec_of_byte(self.spec_byte()) == Some(self),
    {
    }
}

/// The mathematical value of a task: one record of a state file.
pub ghost struct TaskV {
    pub status: Status,
    pub code: u8,
    pub time: Seq<u8>,
    pub path: Seq<u8>,
}

/// One task of a batch: a child executable together with its last observed
/// status, exit code and the instant of that observation.
#[derive(Debug)]
pub struct Task {
    pub status: Status,
    pub code: u8,
    pub time: Vec<u8>,
    pub path: Vec<u8>,
}

impl View for Task {
    type V = TaskV;

    open spec fn view(&self) -> TaskV {
        TaskV { status: self.status, code: self.code, time: self.time@, path: self.path@ }
    }
}

impl DeepView for Task {
    type V = TaskV;

    open spec fn deep_view(&self) -> TaskV {
        self@
    }
}

impl Task {
    /// A fresh task: waiting, exit code zero, stamped with the present
    /// instant.
    pub fn new(p: Vec<u8>) -> (r: Task)
        ensures
            r.status == Status::Waiting,
            r.code == 0,
            r.path@ == p@,
            is_timestamp(r.time@),
            r.time@.len() > 0,
            forall|i: int|
                0 <= i < r.time@.len() ==> r.time@[i] != SPLIT_BYTE && r.time@[i] != LINE_BYTE
                    && r.time@[i] != 13,
    {
        Task { status: Status::Waiting, code: 0, time: now_timestamp(), path: p }
    }
}

/// The mathematical value of a state delta.
pub ghost struct ChangeV {
    pub status: Status,
    pub code: u8,
    pub time: Seq<u8>,
}

/// One status transition for one task, sent by the scheduler to the writer.
#[derive(Debug)]
pub struct StateChange {
    pub status: Status,
    pub code: u8,
    pub time: Vec<u8>,
}

impl View for StateChange {
    type V = ChangeV;

    open spec fn view(&self) -> ChangeV {
        ChangeV { status: self.status, code: self.code, time: self.time@ }
    }
}

/// Which of the two state directories a file belongs to.
#[derive(Clone, Copy, Debug, PartialEq, Eq, Structural)]
pub enum Directory {
    Runtime,
    Persistent,
}

/// The mathematical value of a state entry.
pub ghost struct StateV {
    pub file_name: Seq<u8>,
    pub persistent: bool,
    pub runtime: bool,
    pub running: bool,
}

/// One known target as the UI sees it: the encoded file name and which of
/// its backing files exist — and whether the runtime one is write-locked.
#[derive(Debug)]
pub struct State {
    pub file_name: Vec<u8>,
    pub persistent: bool,
    pub runtime: bool,
    pub running: bool,
}

impl View for State {
    type V = StateV;

    open spec fn view(&self) -> StateV {
        StateV {
            file_name: self.file_name@,
            persistent: self.persistent,
            runtime: self.runtime,
            running: self.running,
        }
    }
}

impl DeepView for State {
    type V = StateV;

    open spec fn deep_view(&self) -> StateV {
        self@
    }
}

/// Whether two byte strings hold the same bytes.
pub fn bytes_eq(a: &Vec<u8>, b: &Vec<u8>) -> (r: bool)
    ensures
        r == (a@ == b@),
{
    if a.len() != b.len() {
        return false;
    }
    let mut i: usize = 0;
    while i < a.len()
        invariant
            i <= a.len(),
            a.len() == b.len(),
            forall|j: int| 0 <= j < i ==> a@[j] == b@[j],
        decreases a.len() - i,
    {
        if a[i] != b[i] {
            return false;
        }
        i = i + 1;
    }
    proof {
        assert(a@ =~= b@);
    }
    true
}

impl PartialEq for State {
    /// Entries are the same state exactly when their file names agree.
    fn eq(&self, other: &Self) -> (r: bool) {
        bytes_eq(&self.file_name, &other.file_name)
    }
}

impl vstd::std_specs::cmp::PartialEqSpecImpl for State {
    open spec fn obeys_eq_spec() -> bool {
        true
    }

    open spec fn eq_spec(&self, other: &Self) -> bool {
        self.file_name@ == other.file_name@
    }
}

impl State {
    /// A fresh entry: nothing known of it but its name.
    pub fn new(s: Vec<u8>) -> (r: State)
        ensures
            r@ == (StateV { file_name: s@, persistent: false, runtime: false, running: false }),
    {
        State { file_name: s, persistent: false, runtime: false, running: false }
    }

    /// The entry, with its runtime file known to exist.
    pub fn runtime(self) -> (r: State)
        ensures
            r@ == (StateV { runtime: true, ..self@ }),
    {
        State { runtime: true, ..self }
    }

    /// The entry, with its persistent file known to exist.
    pub fn persistent(self) -> (r: State)
        ensures
            r@ == (StateV { persistent: true, ..self@ }),
    {
        State { persistent: true, ..self }
    }

    /// The entry, with its runtime file known to be locked.
    pub fn running(self) -> (r: State)
        ensures
            r@ == (StateV { running: true, ..self@ }),
    {
        State { running: true, ..self }
    }

    /// Merge another sighting in: presence only accumulates.
    pub fn add(&mut self, other: &State)
        ensures
            final(self).file_name@ == old(self).file_name@,
            final(self).persistent == (old(self).persistent || other.persistent),
            final(self).runtime == (old(self).runtime || other.runtime),
            final(self).running == (old(self).running || other.running),
    {
        self.persistent = self.persistent || other.persistent;
        self.runtime = self.runtime || other.runtime;
        self.running = self.running || other.running;
    }

    /// Take a disappearance out: only the flags the delta names are
    /// cleared, so removal is idempotent.
    pub fn sub(&mut self, other: &State)
        ensures
            final(self).file_name@ == old(self).file_name@,
            final(self).persistent == (old(self).persistent && !other.persistent),
            final(self).runtime == (old(self).runtime && !other.runtime),
            final(self).running == (old(self).running && !other.running),
    {
        self.persistent = self.persistent && !other.persistent;
        self.runtime = self.runtime && !other.runtime;
        self.running = self.running && !other.running;
    }

    /// An entry lives as long as either backing file does.
    pub fn alive(&self) -> (r: bool)
        ensures
            r == (self.persistent || self.runtime),
    {
        self.persistent || self.runtime
    }

    /// The target directory this entry stands for: its decoded file name.
    pub fn path(&self) -> (r: Vec<u8>)
        ensures
            r@ == crate::path::spec_decode(self.file_name@),
    {
        crate::path::decode(&self.file_name)
    }
}

/// What a lock probe on a runtime file said.
#[derive(Clone, Copy, Debug, PartialEq, Eq, Structural)]
pub enum LockProbe {
    /// The probe answered: the file is locked or not.
    Answered(bool),
    /// The file disappeared under the probe.
    Vanished,
    /// The probe failed some other way.
    Failed,
}

/// One runtime-directory listing entry handed to the registry builder.
#[derive(Debug)]
pub struct RuntimeEntry {
    pub name: Vec<u8>,
    pub probe: LockProbe,
}

/// The mathematical value of a runtime listing entry.
pub ghost struct RuntimeEntryV {
    pub name: Seq<u8>,
    pub probe: LockProbe,
}

impl DeepView for RuntimeEntry {
    type V = RuntimeEntryV;

    open spec fn deep_view(&self) -> RuntimeEntryV {
        RuntimeEntryV { name: self.name@, probe: self.probe }
    }
}

/// The entries the runtime listing contributes: every file that still
/// exists, runtime-present, running exactly when its probe said locked.
pub open spec fn spec_runtime_states(rt: Seq<RuntimeEntryV>) -> Seq<StateV>
    decreases rt.len(),
{
    if rt.len() == 0 {
        Seq::empty()
    } else {
        let head: Seq<StateV> = match rt[0].probe {
            LockProbe::Answered(locked) => seq![
                StateV {
                    file_name: rt[0].name,
                    persistent: false,
                    runtime: true,
                    running: locked,
                },
            ],
            LockProbe::Vanished => Seq::empty(),
            LockProbe::Failed => seq![
                StateV {
                    file_name: rt[0].name,
                    persistent: false,
                    runtime: true,
                    running: false,
                },
            ],
        };
        head + spec_runtime_states(rt.skip(1))
    }
}

/// The first entry with this file name, or the length when none has it.
pub open spec fn spec_first_match(states: Seq<StateV>, name: Seq<u8>) -> nat
    decreases states.len(),
{
    if states.len() == 0 {
        0
    } else if states[0].file_name == name {
        0
    } else {
        1 + spec_first_match(states.skip(1), name)
    }
}

/// Fold the persistent listing in: a name already known gains the
/// persistent flag, a new one is appended as a purely persistent entry.
pub open spec fn spec_add_persistent(states: Seq<StateV>, names: Seq<Seq<u8>>) -> Seq<StateV>
    decreases names.len(),
{
    if names.len() == 0 {
        states
    } else {
        let k = spec_first_match(states, names[0]) as int;
        let next = if k < states.len() {
            states.update(k, StateV { persistent: true, ..states[k] })
        } else {
            states.push(
                StateV { file_name: names[0], persistent: true, runtime: false, running: false },
            )
        };
        spec_add_persistent(next, names.skip(1))
    }
}

/// Build the state registry from the two directory listings: runtime files
/// first, in listing order, then persistent-only names appended in listing
/// order.
pub fn states(runtime: Vec<RuntimeEntry>, persistent: Vec<Vec<u8>>) -> (r: Vec<State>)
    ensures
        r.deep_view() == spec_add_persistent(
            spec_runtime_states(runtime.deep_view()),
            persistent.deep_view(),
        ),
{
    let ghost rt_all = runtime.deep_view();
    let mut out: Vec<State> = Vec::new();
    let mut i: usize = 0;
    proof {
        assert(rt_all.skip(0) =~= rt_all);
        assert(out.deep_view() =~= Seq::<StateV>::empty());
        assert(spec_runtime_states(rt_all) =~= out.deep_view() + spec_runtime_states(
            rt_all.skip(0),
        ));
    }
    while i < runtime.len()
        invariant
            i <= runtime.len(),
            rt_all == runtime.deep_view(),
            spec_runtime_states(rt_all) == out.deep_view() + spec_runtime_states(
                rt_all.skip(i as int),
            ),
        decreases runtime.len() - i,
    {
        proof {
            assert(rt_all.skip(i as int)[0] == rt_all[i as int]);
            assert(rt_all.skip(i as int).skip(1) =~= rt_all.skip(i + 1));
            assert(rt_all[i as int] == runtime@[i as int].deep_view());
        }
        let entry = &runtime[i];
        let ghost prev = out.deep_view();
        match entry.probe {
            LockProbe::Answered(locked) => {
                out.push(
                    State {
                        file_name: entry.name.clone(),
                        persistent: false,
                        runtime: true,
                        running: locked,
                    },
                );
                proof {
                    assert(out.deep_view() =~= prev.push(
                        StateV {
                            file_name: rt_all[i as int].name,
                            persistent: false,
                            runtime: true,
                            running: locked,
                        },
                    ));
                }
            },
            LockProbe::Vanished => {},
            LockProbe::Failed => {
                out.push(
                    State {
                        file_name: entry.name.clone(),
                        persistent: false,
                        runtime: true,
                        running: false,
                    },
                );
                proof {
                    assert(out.deep_view() =~= prev.push(
                        StateV {
                            file_name: rt_all[i as int].name,
                            persistent: false,
                            runtime: true,
                            running: false,
                        },
                    ));
                }
            },
        }
        proof {
            assert(spec_runtime_states(rt_all) =~= out.deep_view() + spec_runtime_states(
                rt_all.skip(i + 1),
            ));
        }
        i = i + 1;
    }
    proof {
        assert(rt_all.skip(runtime.len() as int) =~= Seq::<RuntimeEntryV>::empty());
        assert(spec_runtime_states(Seq::<RuntimeEntryV>::empty()) =~= Seq::<StateV>::empty());
        assert(out.deep_view() + Seq::<StateV>::empty() =~= out.deep_view());
        assert(out.deep_view() == spec_runtime_states(rt_all));
    }
    let ghost base = out.deep_view();
    let ghost names = persistent.deep_view();
    let mut j: usize = 0;
    proof {
        assert(names.skip(0) =~= names);
    }
    while j < persistent.len()
        invariant
            j <= persistent.len(),
            names == persistent.deep_view(),
            spec_add_persistent(base, names) == spec_add_persistent(
                out.deep_view(),
                names.skip(j as int),
            ),
        decreases persistent.len() - j,
    {
        proof {
            assert(names.skip(j as int)[0] == names[j as int]);
            assert(names.skip(j as int).skip(1) =~= names.skip(j + 1));
            assert(names[j as int] == persistent@[j as int]@);
        }
        let name = &persistent[j];
        let ghost cur = out.deep_view();
        let mut k: usize = 0;
        while k < out.len() && !bytes_eq(&out[k].file_name, name)
            invariant
                k <= out.len(),
                cur == out.deep_view(),
                forall|m: int| 0 <= m < k ==> (#[trigger] cur[m]).file_name != name@,
            decreases out.len() - k,
        {
            proof {
                assert(cur[k as int].file_name == out@[k as int].file_name@);
            }
            k = k + 1;
        }
        proof {
            if k < out.len() {
                assert(cur[k as int].file_name == out@[k as int].file_name@);
            }
            lemma_first_match_is(cur, names[j as int], k as int);
        }
        if k < out.len() {
            let updated = State {
                file_name: out[k].file_name.clone(),
                persistent: true,
                runtime: out[k].runtime,
                running: out[k].running,
            };
            out.set(k, updated);
            proof {
                assert(out.deep_view() =~= cur.update(
                    k as int,
                    StateV { persistent: true, ..cur[k as int] },
                ));
            }
        } else {
            out.push(
                State {
                    file_name: name.clone(),
                    persistent: true,
                    runtime: false,
                    running: false,
                },
            );
            proof {
                assert(out.deep_view() =~= cur.push(
                    StateV {
                        file_name: names[j as int],
                        persistent: true,
                        runtime: false,
                        running: false,
                    },
                ));
            }
        }
        j = j + 1;
    }
    proof {
        assert(names.skip(persistent.len() as int) =~= Seq::<Seq<u8>>::empty());
    }
    out
}

/// A no-match scan pins the first match down.
proof fn lemma_first_match_is(states: Seq<StateV>, name: Seq<u8>, k: int)
    requires
        0 <= k <= states.len(),
        forall|m: int| 0 <= m < k ==> (#[trigger] states[m]).file_name != name,
        k < states.len() ==> states[k].file_name == name,
    ensures
        spec_first_match(states, name) == if k < states.len() {
            k as nat
        } else {
            states.len()
        },
    decreases states.len(),
{
    if states.len() == 0 {
    } else if states[0].file_name == name {
    } else {
        assert(k > 0);
        assert(forall|m: int|
            0 <= m < k - 1 ==> (#[trigger] states.skip(1)[m]).file_name == states[m
                + 1].file_name);
        lemma_first_match_is(states.skip(1), name, k - 1);
    }
}

/// What a metadata probe on a state file said.
#[derive(Debug)]
pub enum Meta {
    /// A regular file, with its modification time in nanoseconds.
    IsFile { modified: u128 },
    /// Something else than a regular file stands there.
    NotFile,
    /// Nothing stands there.
    Missing,
    /// The probe failed, with its rendered cause.
    Failed(String),
}

/// Which file backs the task projection: the newer of the two state files,
/// the runtime one winning ties; either alone when only it exists.
pub open spec fn spec_choice(rm: Meta, pm: Meta) -> Option<Directory> {
    match (rm, pm) {
        (Meta::IsFile { modified: m1 }, Meta::IsFile { modified: m2 }) => if m1 < m2 {
            Some(Directory::Persistent)
        } else {
            Some(Directory::Runtime)
        },
        (Meta::IsFile { .. }, _) => Some(Directory::Runtime),
        (_, Meta::IsFile { .. }) => Some(Directory::Persistent),
        _ => None,
    }
}

/// The error one probe contributes, attributed to its file.
pub open spec fn spec_meta_errors(m: Meta, path: Seq<u8>) -> Seq<crate::error::ErrorV> {
    match m {
        Meta::IsFile { .. } => Seq::empty(),
        Meta::NotFile => seq![crate::error::ErrorV::NotFile(path)],
        Meta::Missing => seq![crate::error::ErrorV::NotFound(path)],
        Meta::Failed(io) => seq![crate::error::ErrorV::Metadata { path, io: io@ }],
    }
}

/// Decide which state file to read for the task projection, collecting
/// what the probes complained about on the way.
pub fn tasks_choice(
    rm: Meta,
    pm: Meta,
    runtime_path: Vec<u8>,
    persistent_path: Vec<u8>,
) -> (r: (Option<Directory>, Vec<crate::error::Error>))
    ensures
        r.0 == spec_choice(rm, pm),
        r.1.deep_view() == spec_meta_errors(rm, runtime_path@) + spec_meta_errors(
            pm,
            persistent_path@,
        ),
{
    let mut errors: Vec<crate::error::Error> = Vec::new();
    let ghost e0 = spec_meta_errors(rm, runtime_path@);
    let ghost e1 = spec_meta_errors(pm, persistent_path@);
    let r_file: Option<u128> = match rm {
        Meta::IsFile { modified } => Some(modified),
        Meta::NotFile => {
            errors.push(crate::error::Error::NotFile(runtime_path));
            None
        },
        Meta::Missing => {
            errors.push(crate::error::Error::NotFound(runtime_path));
            None
        },
        Meta::Failed(io) => {
            errors.push(crate::error::Error::Metadata { path: runtime_path, io });
            None
        },
    };
    proof {
        assert(errors.deep_view() =~= e0);
    }
    let ghost mid = errors.deep_view();
    let p_file: Option<u128> = match pm {
        Meta::IsFile { modified } => Some(modified),
        Meta::NotFile => {
            errors.push(crate::error::Error::NotFile(persistent_path));
            None
        },
        Meta::Missing => {
            errors.push(crate::error::Error::NotFound(persistent_path));
            None
        },
        Meta::Failed(io) => {
            errors.push(crate::error::Error::Metadata { path: persistent_path, io });
            None
        },
    };
    proof {
        assert(errors.deep_view() =~= e0 + e1);
    }
    let choice = match (r_file, p_file) {
        (Some(m1), Some(m2)) => if m1 < m2 {
            Some(Directory::Persistent)
        } else {
            Some(Directory::Runtime)
        },
        (Some(_), None) => Some(Directory::Runtime),
        (None, Some(_)) => Some(Directory::Persistent),
        (None, None) => None,
    };
    (choice, errors)
}

/// The three ways a projection read can end, which the UI treats apart:
/// parsed records (with any probe warnings), a chosen file that failed to
/// parse — a transient state, since the writer rewrites whole files — and
/// no readable file at all.
#[derive(Debug)]
pub enum TasksResult {
    Parsed { tasks: Vec<Task>, warnings: Vec<crate::error::Error> },
    ParseFailed { errors: Vec<crate::error::Error> },
    Unreadable { errors: Vec<crate::error::Error> },
}

/// Fold the parse outcome into the collected probe errors: parsed records
/// ride with the warnings; a failed parse joins them as the transient
/// case; no chosen file at all is the unreadable case.
pub fn assemble_tasks(
    parsed: Option<Result<Vec<Task>, crate::error::Error>>,
    errors: Vec<crate::error::Error>,
) -> (r: TasksResult)
    ensures
        match r {
            TasksResult::Parsed { tasks, warnings } => parsed matches Some(Ok(ts0)) && tasks@
                == ts0@ && warnings@ == errors@,
            TasksResult::ParseFailed { errors: errs } => match parsed {
                Some(Err(e)) => errs.deep_view() == errors.deep_view().push(e.deep_view()),
                _ => false,
            },
            TasksResult::Unreadable { errors: errs } => parsed is None && errs@ == errors@,
        },
{
    match parsed {
        Some(Ok(tasks)) => TasksResult::Parsed { tasks, warnings: errors },
        Some(Err(e)) => {
            let mut errs = errors;
            let ghost prev = errs.deep_view();
            errs.push(e);
            proof {
                assert(errs.deep_view() =~= prev.push(errs@[errs@.len() - 1].deep_view()));
            }
            TasksResult::ParseFailed { errors: errs }
        },
        None => TasksResult::Unreadable { errors },
    }
}

/// No two entries share a file name.
pub open spec fn spec_distinct_states(sv: Seq<StateV>) -> bool {
    forall|i: int, j: int|
        0 <= i < j < sv.len() ==> (#[trigger] sv[i]).file_name != (#[trigger] sv[j]).file_name
}

/// What `spec_first_match` returns: the position of the first match.
proof fn lemma_first_match(states: Seq<StateV>, name: Seq<u8>)
    ensures
        spec_first_match(states, name) <= states.len(),
        forall|j: int|
            0 <= j < spec_first_match(states, name) ==> (#[trigger] states[j]).file_name != name,
        spec_first_match(states, name) < states.len() ==> states[spec_first_match(
            states,
            name,
        ) as int].file_name == name,
    decreases states.len(),
{
    if states.len() == 0 {
    } else if states[0].file_name == name {
    } else {
        lemma_first_match(states.skip(1), name);
        assert forall|j: int|
            0 <= j < spec_first_match(states, name) implies (#[trigger] states[j]).file_name
            != name by {
            if j > 0 {
                assert(states.skip(1)[j - 1] == states[j]);
            }
        }
    }
}

/// The runtime listing's entries keep its names: every produced entry
/// carries some listed name, and distinct listed names stay distinct.
proof fn lemma_runtime_states_distinct(rt: Seq<RuntimeEntryV>)
    ensures
        forall|k: int|
            0 <= k < spec_runtime_states(rt).len() ==> exists|m: int|
                0 <= m < rt.len() && (#[trigger] spec_runtime_states(rt)[k]).file_name
                    == rt[m].name,
        (forall|i: int, j: int|
            0 <= i < j < rt.len() ==> (#[trigger] rt[i]).name != (#[trigger] rt[j]).name)
            ==> spec_distinct_states(spec_runtime_states(rt)),
    decreases rt.len(),
{
    if rt.len() == 0 {
    } else {
        let tail = rt.skip(1);
        lemma_runtime_states_distinct(tail);
        let out = spec_runtime_states(rt);
        let rest = spec_runtime_states(tail);
        let head: Seq<StateV> = match rt[0].probe {
            LockProbe::Answered(locked) => seq![
                StateV { file_name: rt[0].name, persistent: false, runtime: true, running: locked },
            ],
            LockProbe::Vanished => Seq::empty(),
            LockProbe::Failed => seq![
                StateV { file_name: rt[0].name, persistent: false, runtime: true, running: false },
            ],
        };
        assert(out == head + rest);
        assert forall|k: int| 0 <= k < out.len() implies exists|m: int|
            0 <= m < rt.len() && (#[trigger] out[k]).file_name == rt[m].name by {
            if k < head.len() {
                assert(out[k].file_name == rt[0].name);
            } else {
                let k2 = k - head.len();
                assert(out[k] == rest[k2]);
                let m2 = choose|m2: int|
                    0 <= m2 < tail.len() && rest[k2].file_name == tail[m2].name;
                assert(tail[m2] == rt[m2 + 1]);
                assert(out[k].file_name == rt[m2 + 1].name);
            }
        }
        if forall|i: int, j: int|
            0 <= i < j < rt.len() ==> (#[trigger] rt[i]).name != (#[trigger] rt[j]).name {
            assert(forall|i: int, j: int|
                0 <= i < j < tail.len() ==> (#[trigger] tail[i]).name != (
                #[trigger] tail[j]).name) by {
                assert(forall|i: int|
                    0 <= i < tail.len() ==> #[trigger] tail[i] == rt[i + 1]);
            }
            assert forall|i: int, j: int|
                0 <= i < j < out.len() implies (#[trigger] out[i]).file_name != (
            #[trigger] out[j]).file_name by {
                if i < head.len() {
                    // The head's name is the first listed one; any later
                    // entry carries a strictly later listed name.
                    let k2 = j - head.len();
                    assert(out[j] == rest[k2]);
                    let m2 = choose|m2: int|
                        0 <= m2 < tail.len() && rest[k2].file_name == tail[m2].name;
                    assert(tail[m2] == rt[m2 + 1]);
                    assert(rt[0].name != rt[m2 + 1].name);
                } else {
                    assert(out[i] == rest[i - head.len()]);
                    assert(out[j] == rest[j - head.len()]);
                }
            }
        }
    }
}

/// Folding the persistent listing in never repeats a name: a known name
/// only gains a flag, a new one enters once.
proof fn lemma_add_persistent_distinct(states: Seq<StateV>, names: Seq<Seq<u8>>)
    requires
        spec_distinct_states(states),
        names.no_duplicates(),
    ensures
        spec_distinct_states(spec_add_persistent(states, names)),
    decreases names.len(),
{
    if names.len() == 0 {
    } else {
        lemma_first_match(states, names[0]);
        let k = spec_first_match(states, names[0]) as int;
        let next = if k < states.len() {
            states.update(k, StateV { persistent: true, ..states[k] })
        } else {
            states.push(
                StateV { file_name: names[0], persistent: true, runtime: false, running: false },
            )
        };
        assert(spec_distinct_states(next)) by {
            if k < states.len() {
                assert(forall|m: int|
                    0 <= m < next.len() ==> (#[trigger] next[m]).file_name
                        == states[m].file_name);
            } else {
                // No existing entry carries this name, so the appended one
                // is fresh.
                assert(forall|m: int|
                    0 <= m < states.len() ==> (#[trigger] states[m]).file_name != names[0]);
            }
        }
        assert(names.skip(1).no_duplicates()) by {
            vstd::seq_lib::lemma_seq_skip_contains(names, 1, names[0]);
            assert(forall|i: int|
                0 <= i < names.skip(1).len() ==> #[trigger] names.skip(1)[i] == names[i + 1]);
        }
        lemma_add_persistent_distinct(next, names.skip(1));
    }
}

/// The registry never lists a name twice: with each directory listing
/// free of repeats — as directory listings are — the merged registry is
/// too, which is what keeps one row per target on screen.
pub proof fn lemma_states_distinct(rt: Seq<RuntimeEntryV>, names: Seq<Seq<u8>>)
    requires
        forall|i: int, j: int|
            0 <= i < j < rt.len() ==> (#[trigger] rt[i]).name != (#[trigger] rt[j]).name,
        names.no_duplicates(),
    ensures
        spec_distinct_states(spec_add_persistent(spec_runtime_states(rt), names)),
{
    lemma_runtime_states_distinct(rt);
    lemma_add_persistent_distinct(spec_runtime_states(rt), names);
}

} // verus!
