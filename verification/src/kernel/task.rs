//! The table of tasks: process lifecycle, signals, wait queues, timers and the
//! choice of the next task.
use vstd::array::*;
use vstd::prelude::*;
use vstd::std_specs::bits::*;

pub mod laws;
pub mod lifecycle;
pub use self::lifecycle::lifecycle_self_test;

verus! {

pub type Pid = u32;

pub type Tid = u32;

pub type Signal = u8;

pub const MAX_TASKS: usize = 32;

pub const MAX_SIGNAL: usize = 32;

pub const MAX_TIMERS: usize = 32;

pub const MAX_CPUS: usize = 8;

pub const ALL_CPUS: u64 = 0xff;

pub const SIGCHLD: Signal = 17;

pub const SIGTERM: Signal = 15;

pub const SIGKILL: Signal = 9;

pub const SIGUSR1: Signal = 10;

pub const CLONE_VM: u64 = 0x0000_0100;

pub const CLONE_FS: u64 = 0x0000_0200;

pub const CLONE_FILES: u64 = 0x0000_0400;

pub const CLONE_SIGHAND: u64 = 0x0000_0800;

pub const CLONE_THREAD: u64 = 0x0001_0000;

pub const WNOHANG: u32 = 0x0000_0001;

#[derive(Clone, Copy, Debug, PartialEq, Eq, Structural)]
pub enum TaskKind {
    Kernel,
    Service,
    User,
    Shell,
}

#[derive(Clone, Copy, Debug, PartialEq, Eq, Structural)]
pub enum TaskState {
    Ready,
    Running,
    Waiting,
    FutexWait(u64),
    WaitQueue(u64),
    ChildWait,
    IpcWait,
    Sleeping(u32, u64),
    Zombie(i32),
}

#[derive(Clone, Copy, Debug, PartialEq, Eq, Structural)]
pub struct TimerPollResult {
    pub expirations: usize,
    pub woken: usize,
    pub rearmed: usize,
}

impl Default for TimerPollResult {
    fn default() -> (result: Self)
        ensures
            result == (TimerPollResult { expirations: 0, woken: 0, rearmed: 0 }),
    {
        TimerPollResult { expirations: 0, woken: 0, rearmed: 0 }
    }
}

#[derive(Clone, Copy, Debug, PartialEq, Eq, Structural)]
pub enum TimerKind {
    WakeTask,
    NotifyTask,
}

#[derive(Clone, Copy, Debug, PartialEq, Eq, Structural)]
pub struct KernelTimer {
    pub id: u32,
    pub owner: Pid,
    pub deadline_ns: u64,
    pub interval_ns: u64,
    pub kind: TimerKind,
}

#[derive(Clone, Copy, Debug, PartialEq, Eq, Structural)]
pub enum SchedulingPolicy {
    Normal,
    Fifo,
    RoundRobin,
}

impl SchedulingPolicy {
    pub fn name(self) -> (name: &'static str)
        ensures
            name@ == (match self {
                SchedulingPolicy::Normal => "other"@,
                SchedulingPolicy::Fifo => "fifo"@,
                SchedulingPolicy::RoundRobin => "rr"@,
            }),
    {
        match self {
            SchedulingPolicy::Normal => "other",
            SchedulingPolicy::Fifo => "fifo",
            SchedulingPolicy::RoundRobin => "rr",
        }
    }
}

#[derive(Clone, Copy, Debug, PartialEq, Eq, Structural)]
pub enum TaskRelation {
    Fork,
    Clone(u64),
}

#[derive(Clone, Copy, Debug, PartialEq, Eq, Structural)]
pub struct SignalAction {
    pub handler: u64,
    pub flags: u64,
    pub mask: u64,
}

impl SignalAction {
    pub open spec fn spec_ignored() -> Self {
        SignalAction { handler: 0, flags: 0, mask: 0 }
    }

    pub fn ignored() -> (action: Self)
        ensures
            action == Self::spec_ignored(),
    {
        SignalAction { handler: 0, flags: 0, mask: 0 }
    }
}

#[derive(Clone, Copy, Debug, PartialEq, Eq, Structural)]
pub struct SignalFrame {
    pub signum: Signal,
    pub handler: u64,
    pub restorer: u64,
    pub saved_ip: u64,
    pub saved_sp: u64,
    pub saved_flags: u64,
    pub blocked_mask: u64,
}

#[derive(Clone, Copy)]
pub struct Task {
    pub pid: Pid,
    pub tid: Tid,
    pub tgid: Pid,
    pub parent: Option<Pid>,
    pub pgid: Pid,
    pub sid: Pid,
    pub name: &'static str,
    pub kind: TaskKind,
    pub state: TaskState,
    pub clone_flags: u64,
    pub exit_signal: Option<Signal>,
    pub signal_mask: u64,
    pub pending_signals: u64,
    pub signal_actions: [SignalAction; 33],
    pub signal_frame: Option<SignalFrame>,
    pub scheduling_policy: SchedulingPolicy,
    pub nice: i8,
    pub rt_priority: u8,
    pub cpu_affinity: u64,
    pub cpu: usize,
    pub runtime_ticks: u64,
    pub timer_expirations: u32,
    pub wait_order: u64,
}

#[derive(Clone, Copy, Debug, PartialEq, Eq, Structural)]
pub enum TaskError {
    PidExhausted,
    TableFull,
    ParentNotFound,
    TaskNotFound,
    InitCannotExit,
    AlreadyExited,
    InvalidSignal,
    InvalidCloneFlags,
    NoSignalPending,
    InvalidFutexAddress,
    FutexValueChanged,
    InvalidNice,
    InvalidPriority,
    InvalidAffinity,
    NoEligibleCpu,
    InvalidWaitQueue,
    TaskNotRunnable,
    WaitOrderExhausted,
    InvalidTimeout,
    TimerTableFull,
    TimerNotFound,
    TimerIdExhausted,
}

/// The text that describes an error.
pub open spec fn error_text(error: TaskError) -> Seq<char> {
    match error {
        TaskError::PidExhausted => "error: pid space exhausted"@,
        TaskError::TableFull => "error: task table is full (reap zombie children)"@,
        TaskError::ParentNotFound => "error: parent task does not exist"@,
        TaskError::TaskNotFound => "error: task does not exist"@,
        TaskError::InitCannotExit => "error: PID 1 cannot exit"@,
        TaskError::AlreadyExited => "error: task is already a zombie"@,
        TaskError::InvalidSignal => "error: invalid signal"@,
        TaskError::InvalidCloneFlags => "error: invalid clone flags"@,
        TaskError::NoSignalPending => "error: no deliverable signal is pending"@,
        TaskError::InvalidFutexAddress => "error: futex address must be nonzero and 4-byte aligned"@,
        TaskError::FutexValueChanged => "error: futex value changed (EAGAIN)"@,
        TaskError::InvalidNice => "error: nice must be between -20 and 19"@,
        TaskError::InvalidPriority => "error: real-time priority must be between 1 and 99"@,
        TaskError::InvalidAffinity => "error: CPU affinity mask has no online CPU"@,
        TaskError::NoEligibleCpu => "error: task has no eligible CPU"@,
        TaskError::InvalidWaitQueue => "error: wait queue key must be nonzero"@,
        TaskError::TaskNotRunnable => "error: task is not runnable"@,
        TaskError::WaitOrderExhausted => "error: wait queue order space exhausted"@,
        TaskError::InvalidTimeout => "error: timeout must be nonzero and not overflow"@,
        TaskError::TimerTableFull => "error: timer table is full"@,
        TaskError::TimerNotFound => "error: timer does not exist"@,
        TaskError::TimerIdExhausted => "error: timer id space exhausted"@,
    }
}

impl TaskError {
    pub fn message(self) -> (text: &'static str)
        ensures
            text@ == error_text(self),
    {
        match self {
            TaskError::PidExhausted => "error: pid space exhausted",
            TaskError::TableFull => "error: task table is full (reap zombie children)",
            TaskError::ParentNotFound => "error: parent task does not exist",
            TaskError::TaskNotFound => "error: task does not exist",
            TaskError::InitCannotExit => "error: PID 1 cannot exit",
            TaskError::AlreadyExited => "error: task is already a zombie",
            TaskError::InvalidSignal => "error: invalid signal",
            TaskError::InvalidCloneFlags => "error: invalid clone flags",
            TaskError::NoSignalPending => "error: no deliverable signal is pending",
            TaskError::InvalidFutexAddress => "error: futex address must be nonzero and 4-byte aligned",
            TaskError::FutexValueChanged => "error: futex value changed (EAGAIN)",
            TaskError::InvalidNice => "error: nice must be between -20 and 19",
            TaskError::InvalidPriority => "error: real-time priority must be between 1 and 99",
            TaskError::InvalidAffinity => "error: CPU affinity mask has no online CPU",
            TaskError::NoEligibleCpu => "error: task has no eligible CPU",
            TaskError::InvalidWaitQueue => "error: wait queue key must be nonzero",
            TaskError::TaskNotRunnable => "error: task is not runnable",
            TaskError::WaitOrderExhausted => "error: wait queue order space exhausted",
            TaskError::InvalidTimeout => "error: timeout must be nonzero and not overflow",
            TaskError::TimerTableFull => "error: timer table is full",
            TaskError::TimerNotFound => "error: timer does not exist",
            TaskError::TimerIdExhausted => "error: timer id space exhausted",
        }
    }
}

#[derive(Clone, Copy, Debug, PartialEq, Eq, Structural)]
pub enum WaitError {
    NoChild,
    WouldBlock,
}

#[derive(Clone, Copy, Debug, PartialEq, Eq, Structural)]
pub struct WaitResult {
    pub pid: Pid,
    pub status: i32,
}

pub struct TaskTable {
    next_pid: Pid,
    next_timer_id: u32,
    next_wait_order: u64,
    init_pid: Option<Pid>,
    entries: [Option<Task>; 32],
    timers: [Option<KernelTimer>; 32],
}

/// The state of the task table.
#[verifier::ext_equal]
pub struct TableView {
    pub next_pid: Pid,
    pub next_timer_id: u32,
    pub next_wait_order: u64,
    pub init_pid: Option<Pid>,
    pub tasks: Seq<Option<Task>>,
    pub timers: Seq<Option<KernelTimer>>,
}

pub open spec fn is_zombie(state: TaskState) -> bool {
    state is Zombie
}

pub open spec fn is_runnable(state: TaskState) -> bool {
    state is Ready || state is Running
}

/// The first slot from `from` on that holds the task `pid`, or the number of slots.
pub open spec fn slot_from(tasks: Seq<Option<Task>>, pid: Pid, from: int) -> int
    decreases tasks.len() - from,
{
    if from >= tasks.len() || from < 0 {
        tasks.len() as int
    } else if tasks[from] is Some && tasks[from].unwrap().pid == pid {
        from
    } else {
        slot_from(tasks, pid, from + 1)
    }
}

/// The first slot from `from` on that is free, or the number of slots.
pub open spec fn free_from<T>(slots: Seq<Option<T>>, from: int) -> int
    decreases slots.len() - from,
{
    if from >= slots.len() || from < 0 {
        slots.len() as int
    } else if slots[from] is None {
        from
    } else {
        free_from(slots, from + 1)
    }
}

impl TableView {
    pub open spec fn empty() -> Self {
        TableView {
            next_pid: 1,
            next_timer_id: 1,
            next_wait_order: 1,
            init_pid: None,
            tasks: Seq::new(32, |i: int| None),
            timers: Seq::new(32, |i: int| None),
        }
    }

    pub open spec fn slot(self, pid: Pid) -> int {
        slot_from(self.tasks, pid, 0)
    }

    /// The task `pid`, if there is one.
    pub open spec fn task(self, pid: Pid) -> Option<Task> {
        if self.slot(pid) < self.tasks.len() {
            self.tasks[self.slot(pid)]
        } else {
            None
        }
    }

    /// There is a task `pid` and it has not exited.
    pub open spec fn live(self, pid: Pid) -> bool {
        self.task(pid) matches Some(task) && !is_zombie(task.state)
    }

    /// The table in which `task` stands in place of the task of that number.
    pub open spec fn with_task(self, task: Task) -> Self {
        TableView { tasks: self.tasks.update(self.slot(task.pid), Some(task)), ..self }
    }

    /// What holds of each task.
    pub open spec fn task_ok(self, task: Task) -> bool {
        &&& 1 <= task.pid < self.next_pid
        &&& task.cpu < 8
        &&& task.wait_order < self.next_wait_order
        &&& task.pending_signals < 0x2_0000_0000
        &&& task.exit_signal == None::<Signal> || task.exit_signal == Some(SIGCHLD)
        &&& self.init_pid matches Some(init) && init <= task.pid
        &&& self.init_pid == Some(task.pid) || (task.parent matches Some(parent) && parent
            < task.pid && self.live(parent))
    }

    pub open spec fn timer_ok(self, timer: KernelTimer) -> bool {
        timer.id < self.next_timer_id && timer.deadline_ns >= 1
    }

    /// Task and timer numbers are unique and were given out, the first task lives as
    /// long as there are tasks, and every other task has an older parent that lives.
    pub open spec fn wf(self) -> bool {
        &&& self.next_pid >= 1
        &&& self.next_wait_order >= 1
        &&& self.tasks.len() == 32
        &&& self.timers.len() == 32
        &&& forall|i: int, j: int|
            0 <= i < j < 32 && #[trigger] self.tasks[i] is Some && #[trigger] self.tasks[j] is Some
                ==> self.tasks[i].unwrap().pid != self.tasks[j].unwrap().pid
        &&& forall|i: int|
            0 <= i < 32 && #[trigger] self.tasks[i] is Some ==> self.task_ok(self.tasks[i].unwrap())
        &&& forall|i: int, j: int|
            0 <= i < j < 32 && #[trigger] self.timers[i] is Some && #[trigger] self.timers[j] is Some
                ==> self.timers[i].unwrap().id != self.timers[j].unwrap().id
        &&& forall|i: int|
            0 <= i < 32 && #[trigger] self.timers[i] is Some ==> self.timer_ok(
                self.timers[i].unwrap(),
            )
        &&& self.init_pid matches Some(init) ==> self.live(init)
        &&& self.init_pid is None ==> forall|i: int| 0 <= i < 32 ==> #[trigger] self.tasks[i] is None
    }
}

pub proof fn lemma_slot(tasks: Seq<Option<Task>>, pid: Pid, from: int)
    requires
        0 <= from <= tasks.len(),
    ensures
        from <= slot_from(tasks, pid, from) <= tasks.len(),
        slot_from(tasks, pid, from) < tasks.len() ==> tasks[slot_from(tasks, pid, from)] is Some
            && tasks[slot_from(tasks, pid, from)].unwrap().pid == pid,
        forall|i: int|
            from <= i < slot_from(tasks, pid, from) ==> !(#[trigger] tasks[i] is Some
                && tasks[i].unwrap().pid == pid),
    decreases tasks.len() - from,
{
    if from < tasks.len() && !(tasks[from] is Some && tasks[from].unwrap().pid == pid) {
        lemma_slot(tasks, pid, from + 1);
    }
}

pub proof fn lemma_free<T>(slots: Seq<Option<T>>, from: int)
    requires
        0 <= from <= slots.len(),
    ensures
        from <= free_from(slots, from) <= slots.len(),
        free_from(slots, from) < slots.len() ==> slots[free_from(slots, from)] is None,
        forall|i: int| from <= i < free_from(slots, from) ==> #[trigger] slots[i] is Some,
    decreases slots.len() - from,
{
    if from < slots.len() && slots[from] is Some {
        lemma_free(slots, from + 1);
    }
}

/// The slot of a task is the slot that holds it.
proof fn lemma_slot_is(view: TableView, index: int)
    requires
        view.wf(),
        0 <= index < 32,
        view.tasks[index] is Some,
    ensures
        view.slot(view.tasks[index].unwrap().pid) == index,
{
    let pid = view.tasks[index].unwrap().pid;
    lemma_slot(view.tasks, pid, 0);
    let found = view.slot(pid);
    if found < index {
        assert(view.tasks[found] is Some && view.tasks[index] is Some);
    }
}

/// Tasks are found where their numbers stand.
proof fn lemma_slot_same(a: Seq<Option<Task>>, b: Seq<Option<Task>>, pid: Pid, from: int)
    requires
        a.len() == b.len(),
        0 <= from <= a.len(),
        forall|i: int|
            #![trigger a[i]]
            #![trigger b[i]]
            0 <= i < a.len() ==> (a[i] is Some && a[i].unwrap().pid == pid <==> b[i] is Some
                && b[i].unwrap().pid == pid),
    ensures
        slot_from(a, pid, from) == slot_from(b, pid, from),
    decreases a.len() - from,
{
    if from < a.len() {
        assert(a[from] is Some && a[from].unwrap().pid == pid <==> b[from] is Some
            && b[from].unwrap().pid == pid);
        lemma_slot_same(a, b, pid, from + 1);
    }
}

/// Replacing a task by one with the same number, parent and life keeps the table in
/// order.
pub proof fn lemma_replace(view: TableView, task: Task)
    requires
        view.wf(),
        view.task(task.pid) is Some,
        task.parent == view.task(task.pid).unwrap().parent,
        is_zombie(task.state) == is_zombie(view.task(task.pid).unwrap().state),
        task.cpu < 8,
        task.wait_order < view.next_wait_order,
        task.pending_signals < 0x2_0000_0000,
        task.exit_signal == None::<Signal> || task.exit_signal == Some(SIGCHLD),
    ensures
        view.with_task(task).wf(),
        view.with_task(task).task(task.pid) == Some(task),
        forall|pid: Pid| #[trigger] view.with_task(task).live(pid) == view.live(pid),
        forall|pid: Pid|
            pid != task.pid ==> #[trigger] view.with_task(task).task(pid) == view.task(pid),
{
    let after = view.with_task(task);
    let at = view.slot(task.pid);
    lemma_slot(view.tasks, task.pid, 0);
    assert forall|pid: Pid| #[trigger] after.live(pid) == view.live(pid) && after.slot(pid)
        == view.slot(pid) by {
        lemma_slot_same(view.tasks, after.tasks, pid, 0);
        lemma_slot(view.tasks, pid, 0);
    }
    assert forall|pid: Pid| pid != task.pid implies #[trigger] after.task(pid) == view.task(pid) by {
        assert(after.live(pid) == view.live(pid));
        lemma_slot_same(view.tasks, after.tasks, pid, 0);
        lemma_slot(view.tasks, pid, 0);
    }
    assert(after.live(task.pid) == view.live(task.pid));
    assert forall|i: int| 0 <= i < 32 && #[trigger] after.tasks[i] is Some implies after.task_ok(
        after.tasks[i].unwrap(),
    ) by {
        assert(view.tasks[i] is Some);
        assert(view.task_ok(view.tasks[i].unwrap()));
        let parent = view.tasks[i].unwrap().parent;
        if parent is Some {
            assert(after.live(parent.unwrap()) == view.live(parent.unwrap()));
        }
    }
    assert forall|i: int, j: int|
        0 <= i < j < 32 && #[trigger] after.tasks[i] is Some && #[trigger] after.tasks[j] is Some implies after.tasks[i].unwrap().pid
        != after.tasks[j].unwrap().pid by {
        assert(view.tasks[i] is Some && view.tasks[j] is Some);
    }
    if let Some(init) = view.init_pid {
        assert(after.live(init) == view.live(init));
    }
}

/// Task lookup and the simple changes of one task.
pub open spec fn changed(
    view: TableView,
    pid: Pid,
    change: spec_fn(Task) -> Task,
) -> (TableView, Result<(), TaskError>) {
    match view.task(pid) {
        None => (view, Err(TaskError::TaskNotFound)),
        Some(task) => (view.with_task(change(task)), Ok(())),
    }
}

impl View for TaskTable {
    type V = TableView;

    closed spec fn view(&self) -> TableView {
        TableView {
            next_pid: self.next_pid,
            next_timer_id: self.next_timer_id,
            next_wait_order: self.next_wait_order,
            init_pid: self.init_pid,
            tasks: self.entries@,
            timers: self.timers@,
        }
    }
}

pub open spec fn is_thread(flags: u64) -> bool {
    flags & CLONE_THREAD != 0
}

/// A new task of this kind, below `parent` if it has one.
pub open spec fn new_task(
    pid: Pid,
    parent: Option<Task>,
    name: &'static str,
    kind: TaskKind,
    relation: TaskRelation,
) -> Task {
    let flags = match relation {
        TaskRelation::Fork => 0,
        TaskRelation::Clone(flags) => flags,
    };
    match parent {
        Some(parent) => Task {
            pid,
            tid: pid,
            tgid: if is_thread(flags) {
                parent.tgid
            } else {
                pid
            },
            parent: Some(parent.pid),
            pgid: parent.pgid,
            sid: parent.sid,
            name,
            kind,
            state: TaskState::Ready,
            clone_flags: flags,
            exit_signal: if is_thread(flags) {
                None
            } else {
                Some(SIGCHLD)
            },
            signal_mask: parent.signal_mask,
            pending_signals: 0,
            signal_actions: parent.signal_actions,
            signal_frame: None,
            scheduling_policy: parent.scheduling_policy,
            nice: parent.nice,
            rt_priority: parent.rt_priority,
            cpu_affinity: parent.cpu_affinity,
            cpu: parent.cpu,
            runtime_ticks: 0,
            timer_expirations: 0,
            wait_order: 0,
        },
        None => Task {
            pid,
            tid: pid,
            tgid: pid,
            parent: None,
            pgid: pid,
            sid: pid,
            name,
            kind,
            state: TaskState::Ready,
            clone_flags: 0,
            exit_signal: None,
            signal_mask: 0,
            pending_signals: 0,
            signal_actions: spec_array_fill_for_copy_type::<SignalAction, 33>(
                SignalAction::spec_ignored(),
            ),
            signal_frame: None,
            scheduling_policy: SchedulingPolicy::Normal,
            nice: 0,
            rt_priority: 0,
            cpu_affinity: ALL_CPUS,
            cpu: 0,
            runtime_ticks: 0,
            timer_expirations: 0,
            wait_order: 0,
        },
    }
}

/// Starting a task: the first is a kernel task without a parent, every other has a
/// parent that lives.
pub open spec fn spawned(
    view: TableView,
    parent: Option<Pid>,
    name: &'static str,
    kind: TaskKind,
    relation: TaskRelation,
) -> (TableView, Result<Pid, TaskError>) {
    let first = view.init_pid is None && parent is None && kind == TaskKind::Kernel;
    let child = view.init_pid is Some && (parent matches Some(pid) && view.live(pid));
    let at = free_from(view.tasks, 0);
    if !first && !child {
        (view, Err(TaskError::ParentNotFound))
    } else if at >= 32 {
        (view, Err(TaskError::TableFull))
    } else if view.next_pid == u32::MAX {
        (view, Err(TaskError::PidExhausted))
    } else {
        let pid = view.next_pid;
        let task = new_task(
            pid,
            match parent {
                Some(parent) => view.task(parent),
                None => None,
            },
            name,
            kind,
            relation,
        );
        (
            TableView {
                next_pid: (pid + 1) as u32,
                init_pid: if view.init_pid is None {
                    Some(pid)
                } else {
                    view.init_pid
                },
                tasks: view.tasks.update(at, Some(task)),
                ..view
            },
            Ok(pid),
        )
    }
}

pub open spec fn forked(view: TableView, parent: Pid) -> (TableView, Result<Pid, TaskError>) {
    if !view.live(parent) {
        (view, Err(TaskError::ParentNotFound))
    } else {
        spawned(
            view,
            Some(parent),
            view.task(parent).unwrap().name,
            view.task(parent).unwrap().kind,
            TaskRelation::Fork,
        )
    }
}

/// A thread must share the memory and the signal handlers.
pub open spec fn cloned_task(
    view: TableView,
    parent: Pid,
    name: &'static str,
    flags: u64,
) -> (TableView, Result<Pid, TaskError>) {
    if is_thread(flags) && flags & (CLONE_VM | CLONE_SIGHAND) != (CLONE_VM | CLONE_SIGHAND) {
        (view, Err(TaskError::InvalidCloneFlags))
    } else {
        spawned(view, Some(parent), name, TaskKind::User, TaskRelation::Clone(flags))
    }
}

pub open spec fn executed(view: TableView, pid: Pid, path: &'static str) -> (
    TableView,
    Result<(), TaskError>,
) {
    match view.task(pid) {
        None => (view, Err(TaskError::TaskNotFound)),
        Some(task) => if is_zombie(task.state) {
            (view, Err(TaskError::AlreadyExited))
        } else {
            (
                view.with_task(
                    Task {
                        name: path,
                        kind: TaskKind::User,
                        pending_signals: 0,
                        signal_frame: None,
                        ..task
                    },
                ),
                Ok(()),
            )
        },
    }
}

/// Setting a state: a task cannot be made to exit or to live again this way.
pub open spec fn state_set(view: TableView, pid: Pid, state: TaskState) -> (TableView, bool) {
    match view.task(pid) {
        None => (view, false),
        Some(task) => if is_zombie(task.state) || is_zombie(state) {
            (view, false)
        } else {
            (view.with_task(Task { state, wait_order: 0, ..task }), true)
        },
    }
}

/// Why a task cannot be made to wait, if it cannot.
pub open spec fn runnable_error(view: TableView, pid: Pid) -> Option<TaskError> {
    match view.task(pid) {
        None => Some(TaskError::TaskNotFound),
        Some(task) => if is_zombie(task.state) {
            Some(TaskError::AlreadyExited)
        } else if !is_runnable(task.state) {
            Some(TaskError::TaskNotRunnable)
        } else {
            None
        },
    }
}

/// Putting a task to wait in `state`, behind all that wait already.
pub open spec fn queued(view: TableView, pid: Pid, state: TaskState) -> (
    TableView,
    Result<(), TaskError>,
) {
    if runnable_error(view, pid) is Some {
        (view, Err(runnable_error(view, pid).unwrap()))
    } else if view.next_wait_order == u64::MAX {
        (view, Err(TaskError::WaitOrderExhausted))
    } else {
        let order = view.next_wait_order;
        let task = view.task(pid).unwrap();
        (
            TableView { next_wait_order: (order + 1) as u64, ..view }.with_task(
                Task { state, wait_order: order, ..task },
            ),
            Ok(()),
        )
    }
}

pub open spec fn futex_address_ok(address: u64) -> bool {
    address != 0 && address % 4 == 0
}

pub open spec fn futex_waited(
    view: TableView,
    pid: Pid,
    address: u64,
    observed: u32,
    expected: u32,
) -> (TableView, Result<(), TaskError>) {
    if !futex_address_ok(address) {
        (view, Err(TaskError::InvalidFutexAddress))
    } else if observed != expected {
        (view, Err(TaskError::FutexValueChanged))
    } else {
        queued(view, pid, TaskState::FutexWait(address))
    }
}

/// Whether slot `index` holds a task that waits in `state`.
pub open spec fn waits(tasks: Seq<Option<Task>>, index: int, state: TaskState) -> bool {
    tasks[index] matches Some(task) && task.state == state
}

/// Of the first `count` slots the one whose task waits longest in `state`, or -1.
pub open spec fn first_waiter(tasks: Seq<Option<Task>>, state: TaskState, count: nat) -> int
    decreases count,
{
    if count == 0 {
        -1
    } else {
        let before = first_waiter(tasks, state, (count - 1) as nat);
        let last = count - 1;
        if waits(tasks, last, state) && (before < 0 || tasks[last].unwrap().wait_order
            < tasks[before].unwrap().wait_order) {
            last
        } else {
            before
        }
    }
}

/// The tasks after the one in slot `index` was made ready.
pub open spec fn readied(tasks: Seq<Option<Task>>, index: int) -> Seq<Option<Task>> {
    tasks.update(
        index,
        Some(Task { state: TaskState::Ready, wait_order: 0, ..tasks[index].unwrap() }),
    )
}

/// The tasks after at most `maximum` of those that wait in `state` were made ready,
/// in the order in which they began to wait, and how many they were.
pub open spec fn woken(tasks: Seq<Option<Task>>, state: TaskState, maximum: nat) -> (
    Seq<Option<Task>>,
    nat,
)
    decreases maximum,
{
    let index = first_waiter(tasks, state, 32);
    if maximum == 0 || index < 0 {
        (tasks, 0)
    } else {
        let (after, count) = woken(readied(tasks, index), state, (maximum - 1) as nat);
        (after, count + 1)
    }
}

pub open spec fn wake_all(view: TableView, state: TaskState, maximum: usize) -> (
    TableView,
    Result<usize, TaskError>,
) {
    let (tasks, count) = woken(view.tasks, state, maximum as nat);
    (TableView { tasks, ..view }, Ok(count as usize))
}

pub open spec fn futex_woken(view: TableView, address: u64, maximum: usize) -> (
    TableView,
    Result<usize, TaskError>,
) {
    if !futex_address_ok(address) {
        (view, Err(TaskError::InvalidFutexAddress))
    } else {
        wake_all(view, TaskState::FutexWait(address), maximum)
    }
}

pub open spec fn queue_waited(view: TableView, pid: Pid, key: u64) -> (
    TableView,
    Result<(), TaskError>,
) {
    if key == 0 {
        (view, Err(TaskError::InvalidWaitQueue))
    } else {
        queued(view, pid, TaskState::WaitQueue(key))
    }
}

pub open spec fn queue_woken(view: TableView, key: u64, maximum: usize) -> (
    TableView,
    Result<usize, TaskError>,
) {
    if key == 0 {
        (view, Err(TaskError::InvalidWaitQueue))
    } else {
        wake_all(view, TaskState::WaitQueue(key), maximum)
    }
}

/// Entering a timer.
pub open spec fn timer_inserted(
    view: TableView,
    owner: Pid,
    deadline_ns: u64,
    interval_ns: u64,
    kind: TimerKind,
) -> (TableView, Result<u32, TaskError>) {
    let at = free_from(view.timers, 0);
    if at >= 32 {
        (view, Err(TaskError::TimerTableFull))
    } else if view.next_timer_id == u32::MAX {
        (view, Err(TaskError::TimerIdExhausted))
    } else {
        let id = view.next_timer_id;
        (
            TableView {
                next_timer_id: (id + 1) as u32,
                timers: view.timers.update(
                    at,
                    Some(KernelTimer { id, owner, deadline_ns, interval_ns, kind }),
                ),
                ..view
            },
            Ok(id),
        )
    }
}

pub open spec fn slept(view: TableView, pid: Pid, now_ns: u64, duration_ns: u64) -> (
    TableView,
    Result<u32, TaskError>,
) {
    if duration_ns == 0 || now_ns + duration_ns > u64::MAX {
        (view, Err(TaskError::InvalidTimeout))
    } else if runnable_error(view, pid) is Some {
        (view, Err(runnable_error(view, pid).unwrap()))
    } else {
        let deadline = (now_ns + duration_ns) as u64;
        let (inserted, result) = timer_inserted(view, pid, deadline, 0, TimerKind::WakeTask);
        match result {
            Err(error) => (inserted, Err(error)),
            Ok(id) => (
                inserted.with_task(
                    Task {
                        state: TaskState::Sleeping(id, deadline),
                        wait_order: 0,
                        ..view.task(pid).unwrap()
                    },
                ),
                Ok(id),
            ),
        }
    }
}

pub open spec fn armed(
    view: TableView,
    pid: Pid,
    now_ns: u64,
    delay_ns: u64,
    interval_ns: u64,
) -> (TableView, Result<u32, TaskError>) {
    if delay_ns == 0 || now_ns + delay_ns > u64::MAX {
        (view, Err(TaskError::InvalidTimeout))
    } else if !view.live(pid) {
        (view, Err(TaskError::TaskNotFound))
    } else {
        timer_inserted(
            view,
            pid,
            (now_ns + delay_ns) as u64,
            interval_ns,
            TimerKind::NotifyTask,
        )
    }
}

/// The first slot from `from` on with the timer `id` of `owner`, or the number of
/// slots.
pub open spec fn timer_slot(
    timers: Seq<Option<KernelTimer>>,
    owner: Pid,
    id: u32,
    from: int,
) -> int
    decreases timers.len() - from,
{
    if from >= timers.len() || from < 0 {
        timers.len() as int
    } else if timers[from] is Some && timers[from].unwrap().id == id && timers[from].unwrap().owner
        == owner {
        from
    } else {
        timer_slot(timers, owner, id, from + 1)
    }
}

pub open spec fn cancelled(view: TableView, pid: Pid, timer_id: u32) -> (
    TableView,
    Result<(), TaskError>,
) {
    let at = timer_slot(view.timers, pid, timer_id, 0);
    if at >= 32 {
        (view, Err(TaskError::TimerNotFound))
    } else {
        let without = TableView { timers: view.timers.update(at, None), ..view };
        match view.task(pid) {
            Some(task) => if task.state is Sleeping && task.state->Sleeping_0 == timer_id {
                (without.with_task(Task { state: TaskState::Ready, ..task }), Ok(()))
            } else {
                (without, Ok(()))
            },
            None => (without, Ok(())),
        }
    }
}

/// How often a timer that is due has expired by `now_ns`.
pub open spec fn periods(timer: KernelTimer, now_ns: u64) -> int {
    if timer.interval_ns == 0 {
        1
    } else {
        (now_ns - timer.deadline_ns) / timer.interval_ns as int + 1
    }
}

/// A count that stops at `limit`.
pub open spec fn up_to(value: int, limit: int) -> int {
    if value <= limit {
        value
    } else {
        limit
    }
}

/// What becomes of a timer that is due: a periodic timer moves behind `now_ns`, as
/// far as time can be counted.
pub open spec fn after_expiry(timer: KernelTimer, now_ns: u64) -> Option<KernelTimer> {
    let elapsed = timer.interval_ns * periods(timer, now_ns);
    if timer.interval_ns == 0 || elapsed > u64::MAX || timer.deadline_ns + elapsed > u64::MAX {
        None
    } else {
        Some(KernelTimer { deadline_ns: (timer.deadline_ns + elapsed) as u64, ..timer })
    }
}

/// Whether an expired timer wakes its owner.
pub open spec fn wakes(timer: KernelTimer, task: Task) -> bool {
    timer.kind == TimerKind::WakeTask && task.state is Sleeping && task.state->Sleeping_0
        == timer.id
}

/// The table and the result after the timer in slot `index` was looked at.
pub open spec fn polled_slot(
    view: TableView,
    result: TimerPollResult,
    now_ns: u64,
    index: int,
) -> (TableView, TimerPollResult) {
    match view.timers[index] {
        None => (view, result),
        Some(timer) => if timer.deadline_ns > now_ns {
            (view, result)
        } else {
            let times = periods(timer, now_ns);
            let next = after_expiry(timer, now_ns);
            let expirations = up_to(
                result.expirations + up_to(times, usize::MAX as int),
                usize::MAX as int,
            ) as usize;
            let rearmed = (if next is Some {
                result.rearmed + 1
            } else {
                result.rearmed as int
            }) as usize;
            match view.task(timer.owner) {
                None => (
                    TableView { timers: view.timers.update(index, None), ..view },
                    TimerPollResult { expirations, rearmed, woken: result.woken },
                ),
                Some(task) => (
                    TableView { timers: view.timers.update(index, next), ..view }.with_task(
                        Task {
                            timer_expirations: up_to(
                                task.timer_expirations + up_to(times, u32::MAX as int),
                                u32::MAX as int,
                            ) as u32,
                            state: if wakes(timer, task) {
                                TaskState::Ready
                            } else {
                                task.state
                            },
                            ..task
                        },
                    ),
                    TimerPollResult {
                        expirations,
                        rearmed,
                        woken: if wakes(timer, task) {
                            (result.woken + 1) as usize
                        } else {
                            result.woken
                        },
                    },
                ),
            }
        },
    }
}

/// The table and the result after the first `count` timer slots were looked at.
pub open spec fn polled(view: TableView, now_ns: u64, count: nat) -> (TableView, TimerPollResult)
    decreases count,
{
    if count == 0 {
        (view, TimerPollResult { expirations: 0, woken: 0, rearmed: 0 })
    } else {
        let (before, result) = polled(view, now_ns, (count - 1) as nat);
        polled_slot(before, result, now_ns, count - 1)
    }
}

/// The earliest deadline of the first `count` timers.
pub open spec fn earliest(timers: Seq<Option<KernelTimer>>, count: nat) -> Option<u64>
    decreases count,
{
    if count == 0 {
        None
    } else {
        let before = earliest(timers, (count - 1) as nat);
        match (before, timers[count - 1]) {
            (None, Some(timer)) => Some(timer.deadline_ns),
            (Some(deadline), Some(timer)) => if timer.deadline_ns < deadline {
                Some(timer.deadline_ns)
            } else {
                before
            },
            _ => before,
        }
    }
}

/// How many of the first `count` slots are in use.
pub open spec fn used<T>(slots: Seq<Option<T>>, count: nat) -> nat
    decreases count,
{
    if count == 0 {
        0
    } else {
        used(slots, (count - 1) as nat) + (if slots[count - 1] is Some {
            1nat
        } else {
            0nat
        })
    }
}

/// How many of the first `count` slots hold a task that has exited.
pub open spec fn zombies(tasks: Seq<Option<Task>>, count: nat) -> nat
    decreases count,
{
    if count == 0 {
        0
    } else {
        zombies(tasks, (count - 1) as nat) + (if tasks[count - 1] is Some && is_zombie(
            tasks[count - 1].unwrap().state,
        ) {
            1nat
        } else {
            0nat
        })
    }
}

pub open spec fn nice_set(view: TableView, pid: Pid, nice: i8) -> (
    TableView,
    Result<(), TaskError>,
) {
    if nice < -20 || nice > 19 {
        (view, Err(TaskError::InvalidNice))
    } else {
        changed(view, pid, |task: Task| Task { nice, ..task })
    }
}

pub open spec fn scheduler_set(
    view: TableView,
    pid: Pid,
    policy: SchedulingPolicy,
    priority: u8,
) -> (TableView, Result<(), TaskError>) {
    if (policy == SchedulingPolicy::Normal && priority != 0) || (policy != SchedulingPolicy::Normal
        && !(1 <= priority <= 99)) {
        (view, Err(TaskError::InvalidPriority))
    } else {
        changed(
            view,
            pid,
            |task: Task| Task { scheduling_policy: policy, rt_priority: priority, ..task },
        )
    }
}

/// The number of processors that count as online.
pub open spec fn clamped_cpus(online_cpus: usize) -> int {
    if online_cpus < 1 {
        1
    } else if online_cpus > 8 {
        8
    } else {
        online_cpus as int
    }
}

/// The mask of the processors that are online.
pub open spec fn online_mask(online_cpus: usize) -> u64 {
    ((1u64 << (clamped_cpus(online_cpus) as u64)) - 1) as u64
}

/// Whether a mask allows a processor.
pub open spec fn allows(mask: u64, cpu: int) -> bool {
    mask & (1u64 << (cpu as u64)) != 0
}

pub open spec fn affinity_set(
    view: TableView,
    pid: Pid,
    requested: u64,
    online_cpus: usize,
) -> (TableView, Result<u64, TaskError>) {
    let effective = requested & online_mask(online_cpus);
    if effective == 0 {
        (view, Err(TaskError::InvalidAffinity))
    } else {
        match view.task(pid) {
            None => (view, Err(TaskError::TaskNotFound)),
            Some(task) => (
                view.with_task(
                    Task {
                        cpu_affinity: effective,
                        cpu: if allows(effective, task.cpu as int) {
                            task.cpu
                        } else {
                            u64_trailing_zeros(effective) as usize
                        },
                        ..task
                    },
                ),
                Ok(effective),
            ),
        }
    }
}

pub open spec fn ticked(view: TableView, pid: Pid) -> (TableView, Result<(), TaskError>) {
    changed(
        view,
        pid,
        |task: Task|
            Task {
                runtime_ticks: if task.runtime_ticks == u64::MAX {
                    u64::MAX
                } else {
                    (task.runtime_ticks + 1) as u64
                },
                ..task
            },
    )
}

/// Whether a task can run on a processor.
pub open spec fn eligible(task: Task, cpu: usize) -> bool {
    is_runnable(task.state) && allows(task.cpu_affinity, cpu as int) && task.cpu == cpu
}

/// Whether `a` runs before `b`: real-time tasks first, then by priority, then the nicer
/// waits, then the one that ran less, then the older.
pub open spec fn runs_before(a: Task, b: Task) -> bool {
    let a_real = a.scheduling_policy != SchedulingPolicy::Normal;
    let b_real = b.scheduling_policy != SchedulingPolicy::Normal;
    if a_real != b_real {
        a_real
    } else if a.rt_priority != b.rt_priority {
        a.rt_priority > b.rt_priority
    } else if a.nice != b.nice {
        a.nice < b.nice
    } else if a.runtime_ticks != b.runtime_ticks {
        a.runtime_ticks < b.runtime_ticks
    } else {
        a.pid < b.pid
    }
}

/// `pid` is the task to run next on a processor; `None` if none can run.
pub open spec fn picked(view: TableView, cpu: usize, pid: Option<Pid>) -> bool {
    match pid {
        None => cpu >= 8 || forall|i: int|
            0 <= i < 32 && #[trigger] view.tasks[i] is Some ==> !eligible(
                view.tasks[i].unwrap(),
                cpu,
            ),
        Some(pid) => cpu < 8 && (view.task(pid) matches Some(task) && eligible(task, cpu)
            && forall|i: int|
            0 <= i < 32 && #[trigger] view.tasks[i] is Some && eligible(
                view.tasks[i].unwrap(),
                cpu,
            ) ==> view.tasks[i].unwrap().pid == pid || runs_before(task, view.tasks[i].unwrap())),
    }
}

/// The processor of the first `count` that a mask allows with the least load, or -1.
pub open spec fn least_loaded(mask: u64, loads: Seq<u16>, count: nat) -> int
    decreases count,
{
    if count == 0 {
        -1
    } else {
        let before = least_loaded(mask, loads, (count - 1) as nat);
        let last = count - 1;
        if allows(mask, last) && (before < 0 || loads[last] < loads[before]) {
            last
        } else {
            before
        }
    }
}

/// The runnable tasks of a processor among the first `count`.
pub open spec fn load_of(tasks: Seq<Option<Task>>, cpu: int, online: int, count: nat) -> nat
    decreases count,
{
    if count == 0 {
        0
    } else {
        load_of(tasks, cpu, online, (count - 1) as nat) + (if tasks[count - 1] is Some
            && is_runnable(tasks[count - 1].unwrap().state) && tasks[count - 1].unwrap().cpu == cpu
            && cpu < online && allows(tasks[count - 1].unwrap().cpu_affinity, cpu) {
            1nat
        } else {
            0nat
        })
    }
}

/// How far a rebalancing has come.
#[verifier::ext_equal]
pub struct Balance {
    pub tasks: Seq<Option<Task>>,
    pub loads: Seq<u16>,
    pub migrations: nat,
    pub failed: bool,
}

/// One step of a rebalancing: a runnable task moves to the least loaded processor that
/// it may use, if it may not stay or if that one has at least two tasks fewer.
pub open spec fn balanced_slot(state: Balance, online: usize, index: int) -> Balance {
    match state.tasks[index] {
        None => state,
        Some(task) => {
            let allowed = task.cpu_affinity & online_mask(online);
            let target = least_loaded(allowed, state.loads, 8);
            let may_stay = task.cpu < online && allows(allowed, task.cpu as int);
            if state.failed || !is_runnable(task.state) {
                state
            } else if allowed == 0 {
                Balance { failed: true, ..state }
            } else if !may_stay || state.loads[task.cpu as int] > state.loads[target] + 1 {
                let reduced = if may_stay {
                    state.loads.update(
                        task.cpu as int,
                        (state.loads[task.cpu as int] - 1) as u16,
                    )
                } else {
                    state.loads
                };
                Balance {
                    tasks: state.tasks.update(index, Some(Task { cpu: target as usize, ..task })),
                    loads: reduced.update(target, (reduced[target] + 1) as u16),
                    migrations: state.migrations + 1,
                    failed: false,
                }
            } else {
                state
            }
        },
    }
}

pub open spec fn balanced(tasks: Seq<Option<Task>>, online: usize, count: nat) -> Balance
    decreases count,
{
    if count == 0 {
        Balance {
            tasks,
            loads: Seq::new(8, |cpu: int| load_of(tasks, cpu, online as int, 32) as u16),
            migrations: 0,
            failed: false,
        }
    } else {
        balanced_slot(balanced(tasks, online, (count - 1) as nat), online, count - 1)
    }
}

pub open spec fn rebalanced(view: TableView, online_cpus: usize) -> (
    TableView,
    Result<usize, TaskError>,
) {
    let end = balanced(view.tasks, clamped_cpus(online_cpus) as usize, 32);
    (
        TableView { tasks: end.tasks, ..view },
        if end.failed {
            Err(TaskError::NoEligibleCpu)
        } else {
            Ok(end.migrations as usize)
        },
    )
}

/// The timers without those of `owner`.
pub open spec fn timers_without(timers: Seq<Option<KernelTimer>>, owner: Pid) -> Seq<
    Option<KernelTimer>,
> {
    timers.map_values(
        |timer: Option<KernelTimer>|
            if timer is Some && timer.unwrap().owner == owner {
                None
            } else {
                timer
            },
    )
}

/// The children of `pid` in the care of `guardian`.
pub open spec fn adopted(tasks: Seq<Option<Task>>, pid: Pid, guardian: Pid) -> Seq<Option<Task>> {
    tasks.map_values(
        |task: Option<Task>|
            if task is Some && task.unwrap().parent == Some(pid) {
                Some(Task { parent: Some(guardian), ..task.unwrap() })
            } else {
                task
            },
    )
}

/// Whether `pid` leaves a child that has exited and was not waited for.
pub open spec fn leaves_zombie(tasks: Seq<Option<Task>>, pid: Pid) -> bool {
    exists|i: int|
        0 <= i < tasks.len() && #[trigger] tasks[i] is Some && tasks[i].unwrap().parent == Some(pid)
            && is_zombie(tasks[i].unwrap().state)
}

/// The table after a signal became pending for `pid`.
pub open spec fn with_pending(view: TableView, pid: Pid, signal: u8) -> TableView {
    match view.task(pid) {
        Some(task) => view.with_task(
            Task { pending_signals: task.pending_signals | (1u64 << (signal as u64)), ..task },
        ),
        None => view,
    }
}

/// The table after task `pid` exited, up to the change of the task itself: its timers
/// are gone, the first task has adopted its children, its parent knows.
pub open spec fn exit_announced(view: TableView, pid: Pid) -> TableView {
    let exiting = view.task(pid).unwrap();
    let init = view.init_pid.unwrap();
    let orphaned = TableView {
        timers: timers_without(view.timers, pid),
        tasks: adopted(view.tasks, pid, init),
        ..view
    };
    let told = if exiting.parent is Some && exiting.exit_signal is Some {
        with_pending(orphaned, exiting.parent.unwrap(), exiting.exit_signal.unwrap())
    } else {
        orphaned
    };
    if leaves_zombie(view.tasks, pid) {
        with_pending(told, init, SIGCHLD)
    } else {
        told
    }
}

/// Exiting: a task that is waited for stays as a zombie, another goes at once.
pub open spec fn exited(view: TableView, pid: Pid, status: i32) -> (
    TableView,
    Result<(), TaskError>,
) {
    if view.init_pid == Some(pid) {
        (view, Err(TaskError::InitCannotExit))
    } else {
        match view.task(pid) {
            None => (view, Err(TaskError::TaskNotFound)),
            Some(exiting) => if is_zombie(exiting.state) {
                (view, Err(TaskError::AlreadyExited))
            } else {
                let at = view.slot(pid);
                let announced = exit_announced(view, pid);
                let task = announced.tasks[at].unwrap();
                (
                    TableView {
                        tasks: announced.tasks.update(
                            at,
                            if exiting.exit_signal is None {
                                None
                            } else {
                                Some(
                                    Task {
                                        state: TaskState::Zombie(status),
                                        signal_frame: None,
                                        wait_order: 0,
                                        ..task
                                    },
                                )
                            },
                        ),
                        ..announced
                    },
                    Ok(()),
                )
            },
        }
    }
}

/// Whether a task is a child of `parent` that `target` asks for and that is waited
/// for: any, those of the parent's group, or one.
pub open spec fn waited_for(
    task: Task,
    parent: Pid,
    parent_pgid: Pid,
    target: Option<Pid>,
) -> bool {
    &&& task.parent == Some(parent)
    &&& task.exit_signal is Some
    &&& match target {
        None => true,
        Some(pid) => if pid == 0 {
            task.pgid == parent_pgid
        } else {
            task.pid == pid
        },
    }
}

/// Whether slot `index` holds a child that is waited for.
pub open spec fn child_at(view: TableView, parent: Pid, target: Option<Pid>, index: int) -> bool {
    let parent_pgid = match view.task(parent) {
        Some(task) => task.pgid,
        None => 0,
    };
    view.tasks[index] is Some && waited_for(
        view.tasks[index].unwrap(),
        parent,
        parent_pgid,
        target,
    )
}

/// The first slot from `from` on with a child that is waited for and has exited.
pub open spec fn zombie_slot(view: TableView, parent: Pid, target: Option<Pid>, from: int) -> int
    decreases view.tasks.len() - from,
{
    if from >= view.tasks.len() || from < 0 {
        view.tasks.len() as int
    } else if child_at(view, parent, target, from) && is_zombie(
        view.tasks[from].unwrap().state,
    ) {
        from
    } else {
        zombie_slot(view, parent, target, from + 1)
    }
}

/// Waiting for a child: the first that has exited is released.
pub open spec fn waited(view: TableView, parent: Pid, target: Option<Pid>, options: u32) -> (
    TableView,
    Result<Option<WaitResult>, WaitError>,
) {
    let at = zombie_slot(view, parent, target, 0);
    let has_child = exists|i: int| 0 <= i < 32 && #[trigger] child_at(view, parent, target, i);
    if at < 32 {
        let task = view.tasks[at].unwrap();
        (
            TableView { tasks: view.tasks.update(at, None), ..view },
            Ok(Some(WaitResult { pid: task.pid, status: task.state->Zombie_0 })),
        )
    } else if !has_child {
        (view, Err(WaitError::NoChild))
    } else if options % 2 == 1 {
        (view, Ok(None))
    } else {
        (view, Err(WaitError::WouldBlock))
    }
}

pub open spec fn group_set(view: TableView, pid: Pid, pgid: Pid) -> (
    TableView,
    Result<(), TaskError>,
) {
    changed(
        view,
        pid,
        |task: Task|
            Task {
                pgid: if pgid == 0 {
                    pid
                } else {
                    pgid
                },
                ..task
            },
    )
}

pub open spec fn session_set(view: TableView, pid: Pid) -> (TableView, Result<Pid, TaskError>) {
    match view.task(pid) {
        None => (view, Err(TaskError::TaskNotFound)),
        Some(task) => (view.with_task(Task { sid: pid, pgid: pid, ..task }), Ok(pid)),
    }
}

pub open spec fn signal_ok(signal: Signal) -> bool {
    1 <= signal <= 32
}

pub open spec fn action_set(view: TableView, pid: Pid, signal: Signal, action: SignalAction) -> (
    TableView,
    Result<(), TaskError>,
) {
    if !signal_ok(signal) {
        (view, Err(TaskError::InvalidSignal))
    } else {
        changed(
            view,
            pid,
            |task: Task|
                Task {
                    signal_actions: spec_array_update(
                        task.signal_actions,
                        signal as int,
                        action,
                    ),
                    ..task
                },
        )
    }
}

/// Whether a signal interrupts a task in this state.
pub open spec fn interruptible(state: TaskState) -> bool {
    state is FutexWait || state is WaitQueue || state is ChildWait || state is IpcWait
        || state is Sleeping
}

/// Sending a signal: it becomes pending; one that kills and has no handler makes the
/// task exit, another ends its waiting and the timer of its sleep.
pub open spec fn signalled(view: TableView, pid: Pid, signal: Signal) -> (
    TableView,
    Result<(), TaskError>,
) {
    let kills = signal == SIGKILL || signal == SIGTERM;
    if !signal_ok(signal) {
        (view, Err(TaskError::InvalidSignal))
    } else if view.init_pid == Some(pid) && kills {
        (view, Err(TaskError::InitCannotExit))
    } else {
        match view.task(pid) {
            None => (view, Err(TaskError::TaskNotFound)),
            Some(task) => if is_zombie(task.state) {
                (view, Err(TaskError::AlreadyExited))
            } else if kills && task.signal_actions[signal as int].handler == 0 {
                exited(with_pending(view, pid, signal), pid, (128 + signal) as i32)
            } else {
                let pending = with_pending(view, pid, signal);
                let resumed = if interruptible(task.state) {
                    pending.with_task(
                        Task {
                            state: TaskState::Ready,
                            wait_order: 0,
                            ..pending.task(pid).unwrap()
                        },
                    )
                } else {
                    pending
                };
                let at = timer_slot(view.timers, pid, task.state->Sleeping_0, 0);
                if task.state is Sleeping && at < 32 {
                    (TableView { timers: resumed.timers.update(at, None), ..resumed }, Ok(()))
                } else {
                    (resumed, Ok(()))
                }
            },
        }
    }
}

/// The frame with which a task handles a signal.
pub open spec fn frame_of(task: Task, signal: int) -> SignalFrame {
    SignalFrame {
        signum: signal as u8,
        handler: task.signal_actions[signal].handler,
        restorer: 0xffff_ffff_8000_1000,
        saved_ip: (0x0040_0000 + task.pid) as u64,
        saved_sp: (0x007f_ffff_f000 - task.pid * 0x1000) as u64,
        saved_flags: 0x202,
        blocked_mask: task.signal_mask,
    }
}

/// Delivering the lowest pending signal that is not blocked.
pub open spec fn delivered(view: TableView, pid: Pid) -> (
    TableView,
    Result<SignalFrame, TaskError>,
) {
    match view.task(pid) {
        None => (view, Err(TaskError::TaskNotFound)),
        Some(task) => {
            let deliverable = task.pending_signals & !task.signal_mask;
            let signal = u64_trailing_zeros(deliverable) as int;
            if deliverable == 0 {
                (view, Err(TaskError::NoSignalPending))
            } else {
                let frame = frame_of(task, signal);
                (
                    view.with_task(
                        Task {
                            pending_signals: task.pending_signals & !(1u64 << (signal as u64)),
                            signal_frame: Some(frame),
                            ..task
                        },
                    ),
                    Ok(frame),
                )
            }
        },
    }
}

impl TaskTable {
    /// The table keeps its rules.
    pub open spec fn wf(&self) -> bool {
        self@.wf()
    }

    pub fn new() -> (table: Self)
        ensures
            table@ == TableView::empty(),
            table.wf(),
    {
        let table = TaskTable {
            next_pid: 1,
            next_timer_id: 1,
            next_wait_order: 1,
            init_pid: None,
            entries: [None; 32],
            timers: [None; 32],
        };
        assert(table@ =~= TableView::empty());
        table
    }

    /// Empties the table.
    pub(crate) fn reset(&mut self)
        ensures
            final(self)@ == TableView::empty(),
            final(self).wf(),
    {
        self.next_pid = 1;
        self.next_timer_id = 1;
        self.next_wait_order = 1;
        self.init_pid = None;
        self.entries = [None; 32];
        self.timers = [None; 32];
        assert(self@ =~= TableView::empty());
    }

    /// The slot of a task, or the number of slots.
    fn find(&self, pid: Pid) -> (slot: usize)
        requires
            self.wf(),
        ensures
            slot == self@.slot(pid),
            slot <= 32,
            slot < 32 ==> self@.tasks[slot as int] is Some && self@.tasks[slot as int].unwrap().pid
                == pid,
            slot < 32 <==> self@.task(pid) is Some,
    {
        let mut slot: usize = 0;
        proof {
            lemma_slot(self@.tasks, pid, 0);
        }
        while slot < 32
            invariant
                slot <= 32,
                self.wf(),
                slot_from(self@.tasks, pid, 0) == slot_from(self@.tasks, pid, slot as int),
            decreases 32 - slot,
        {
            if let Some(task) = self.entries[slot] {
                if task.pid == pid {
                    proof {
                        lemma_slot(self@.tasks, pid, 0);
                    }
                    return slot;
                }
            }
            slot += 1;
        }
        slot
    }

    /// Replaces a task by one with the same number, parent and life.
    fn put(&mut self, slot: usize, task: Task)
        requires
            old(self).wf(),
            slot == old(self)@.slot(task.pid),
            old(self)@.task(task.pid) is Some,
            task.parent == old(self)@.task(task.pid).unwrap().parent,
            is_zombie(task.state) == is_zombie(old(self)@.task(task.pid).unwrap().state),
            task.cpu < 8,
            task.wait_order < old(self)@.next_wait_order,
            task.pending_signals < 0x2_0000_0000,
            task.exit_signal == None::<Signal> || task.exit_signal == Some(SIGCHLD),
        ensures
            final(self).wf(),
            final(self)@ == old(self)@.with_task(task),
    {
        proof {
            lemma_replace(self@, task);
            lemma_slot(self@.tasks, task.pid, 0);
        }
        self.entries[slot] = Some(task);
        assert(self@ =~= old(self)@.with_task(task));
    }

    pub fn spawn(&mut self, parent: Option<Pid>, name: &'static str, kind: TaskKind) -> (result:
        Result<Pid, TaskError>)
        requires
            old(self).wf(),
        ensures
            final(self).wf(),
            (final(self)@, result) == spawned(old(self)@, parent, name, kind, TaskRelation::Fork),
    {
        self.spawn_related(parent, name, kind, TaskRelation::Fork)
    }

    pub fn fork(&mut self, parent: Pid) -> (result: Result<Pid, TaskError>)
        requires
            old(self).wf(),
        ensures
            final(self).wf(),
            (final(self)@, result) == forked(old(self)@, parent),
    {
        match self.get_by_pid(parent) {
            Some(template) => match template.state {
                TaskState::Zombie(_) => Err(TaskError::ParentNotFound),
                _ => self.spawn_related(
                    Some(parent),
                    template.name,
                    template.kind,
                    TaskRelation::Fork,
                ),
            },
            None => Err(TaskError::ParentNotFound),
        }
    }

    pub fn clone_task(&mut self, parent: Pid, name: &'static str, clone_flags: u64) -> (result:
        Result<Pid, TaskError>)
        requires
            old(self).wf(),
        ensures
            final(self).wf(),
            (final(self)@, result) == cloned_task(old(self)@, parent, name, clone_flags),
    {
        if clone_flags & CLONE_THREAD != 0 && clone_flags & (CLONE_VM | CLONE_SIGHAND) != (CLONE_VM
            | CLONE_SIGHAND) {
            return Err(TaskError::InvalidCloneFlags);
        }
        self.spawn_related(Some(parent), name, TaskKind::User, TaskRelation::Clone(clone_flags))
    }

    pub fn execve(&mut self, pid: Pid, path: &'static str) -> (result: Result<(), TaskError>)
        requires
            old(self).wf(),
        ensures
            final(self).wf(),
            (final(self)@, result) == executed(old(self)@, pid, path),
    {
        let slot: usize = self.find(pid);
        if slot < 32 {
            if let Some(task) = self.entries[slot] {
                assert(self@.task_ok(task));
                if let TaskState::Zombie(_) = task.state {
                    return Err(TaskError::AlreadyExited);
                }
                self.put(
                    slot,
                    Task {
                        name: path,
                        kind: TaskKind::User,
                        pending_signals: 0,
                        signal_frame: None,
                        ..task
                    },
                );
                return Ok(());
            }
        }
        Err(TaskError::TaskNotFound)
    }

    /// The first free slot for a task, or the number of slots.
    fn free_slot(&self) -> (slot: usize)
        ensures
            slot == free_from(self@.tasks, 0),
            slot <= 32,
    {
        let mut slot: usize = 0;
        proof {
            lemma_free(self@.tasks, 0);
        }
        while slot < 32
            invariant
                slot <= 32,
                self@.tasks.len() == 32,
                free_from(self@.tasks, 0) == free_from(self@.tasks, slot as int),
            decreases 32 - slot,
        {
            if self.entries[slot].is_none() {
                return slot;
            }
            slot += 1;
        }
        slot
    }

    fn spawn_related(
        &mut self,
        parent: Option<Pid>,
        name: &'static str,
        kind: TaskKind,
        relation: TaskRelation,
    ) -> (result: Result<Pid, TaskError>)
        requires
            old(self).wf(),
        ensures
            final(self).wf(),
            (final(self)@, result) == spawned(old(self)@, parent, name, kind, relation),
    {
        match (self.init_pid, parent) {
            (None, None) => {
                if kind != TaskKind::Kernel {
                    return Err(TaskError::ParentNotFound);
                }
            },
            (Some(_), Some(parent_pid)) => {
                if !self.is_live(parent_pid) {
                    return Err(TaskError::ParentNotFound);
                }
            },
            _ => {
                return Err(TaskError::ParentNotFound);
            },
        }
        let slot: usize = self.free_slot();
        if slot >= 32 {
            return Err(TaskError::TableFull);
        }
        let pid: Pid = self.next_pid;
        if pid == u32::MAX {
            return Err(TaskError::PidExhausted);
        }
        let task = match parent {
            Some(parent_pid) => match self.get_by_pid(parent_pid) {
                Some(parent_task) => {
                    let flags: u64 = match relation {
                        TaskRelation::Fork => 0,
                        TaskRelation::Clone(flags) => flags,
                    };
                    let thread = flags & CLONE_THREAD != 0;
                    let tgid: Pid = if thread {
                        parent_task.tgid
                    } else {
                        pid
                    };
                    let exit_signal = if thread {
                        None
                    } else {
                        Some(SIGCHLD)
                    };
                    Task {
                        pid,
                        tid: pid,
                        tgid,
                        parent,
                        name,
                        kind,
                        state: TaskState::Ready,
                        clone_flags: flags,
                        exit_signal,
                        pending_signals: 0,
                        signal_frame: None,
                        runtime_ticks: 0,
                        timer_expirations: 0,
                        wait_order: 0,
                        ..parent_task
                    }
                },
                None => {
                    return Err(TaskError::ParentNotFound);
                },
            },
            None => Task {
                pid,
                tid: pid,
                tgid: pid,
                parent: None,
                pgid: pid,
                sid: pid,
                name,
                kind,
                state: TaskState::Ready,
                clone_flags: 0,
                exit_signal: None,
                signal_mask: 0,
                pending_signals: 0,
                signal_actions: [SignalAction::ignored(); 33],
                signal_frame: None,
                scheduling_policy: SchedulingPolicy::Normal,
                nice: 0,
                rt_priority: 0,
                cpu_affinity: ALL_CPUS,
                cpu: 0,
                runtime_ticks: 0,
                timer_expirations: 0,
                wait_order: 0,
            },
        };
        let ghost before = self@;
        self.next_pid = pid + 1;
        self.entries[slot] = Some(task);
        if self.init_pid.is_none() {
            self.init_pid = Some(pid);
        }
        proof {
            let end = spawned(before, parent, name, kind, relation).0;
            assert(task == new_task(
                pid,
                match parent {
                    Some(parent) => before.task(parent),
                    None => None,
                },
                name,
                kind,
                relation,
            )) by {
                if parent is None {
                    assert(task.signal_actions =~= spec_array_fill_for_copy_type::<
                        SignalAction,
                        33,
                    >(SignalAction::spec_ignored()));
                }
            }
            assert(self@ =~= end);
            lemma_spawned(before, parent, name, kind, relation);
        }
        Ok(pid)
    }

    pub fn get_by_pid(&self, pid: Pid) -> (task: Option<Task>)
        requires
            self.wf(),
        ensures
            task == self@.task(pid),
            task is Some ==> self@.task_ok(task.unwrap()) && task.unwrap().pid == pid,
    {
        let slot: usize = self.find(pid);
        if slot < 32 {
            self.entries[slot]
        } else {
            None
        }
    }

    fn is_live(&self, pid: Pid) -> (live: bool)
        requires
            self.wf(),
        ensures
            live == self@.live(pid),
    {
        match self.get_by_pid(pid) {
            Some(task) => match task.state {
                TaskState::Zombie(_) => false,
                _ => true,
            },
            None => false,
        }
    }
}

/// Starting a task keeps the table in order.
proof fn lemma_spawned(
    view: TableView,
    parent: Option<Pid>,
    name: &'static str,
    kind: TaskKind,
    relation: TaskRelation,
)
    requires
        view.wf(),
    ensures
        spawned(view, parent, name, kind, relation).0.wf(),
{
    let (after, result) = spawned(view, parent, name, kind, relation);
    if result is Ok {
        let at = free_from(view.tasks, 0);
        lemma_free(view.tasks, 0);
        let task = after.tasks[at].unwrap();
        if parent is Some {
            lemma_slot(view.tasks, parent.unwrap(), 0);
            assert(view.tasks[view.slot(parent.unwrap())] is Some);
            assert(view.task_ok(view.task(parent.unwrap()).unwrap()));
        }
        assert forall|pid: Pid| #[trigger] view.live(pid) implies after.live(pid) by {
            lemma_slot(view.tasks, pid, 0);
            assert(view.tasks[view.slot(pid)] is Some);
            assert(view.task_ok(view.tasks[view.slot(pid)].unwrap()));
            lemma_slot_same(view.tasks, after.tasks, pid, 0);
        }
        assert forall|i: int| 0 <= i < 32 && #[trigger] after.tasks[i] is Some implies after.task_ok(
            after.tasks[i].unwrap(),
        ) by {
            if i != at {
                assert(view.tasks[i] is Some);
                assert(view.task_ok(view.tasks[i].unwrap()));
            }
        }
        assert forall|i: int, j: int|
            0 <= i < j < 32 && #[trigger] after.tasks[i] is Some && #[trigger] after.tasks[j] is Some implies after.tasks[i].unwrap().pid
            != after.tasks[j].unwrap().pid by {
            if i != at {
                assert(view.tasks[i] is Some);
                assert(view.task_ok(view.tasks[i].unwrap()));
            }
            if j != at {
                assert(view.tasks[j] is Some);
                assert(view.task_ok(view.tasks[j].unwrap()));
            }
        }
        if view.init_pid is None {
            lemma_slot(after.tasks, task.pid, 0);
            assert(after.tasks[at] is Some);
            assert(after.live(task.pid));
        }
    }
}

/// What the timers are does not matter to the tasks.
proof fn lemma_timers(view: TableView, after: TableView)
    requires
        view.wf(),
        after == (TableView {
            timers: after.timers,
            next_timer_id: after.next_timer_id,
            next_wait_order: after.next_wait_order,
            ..view
        }),
        after.next_wait_order >= view.next_wait_order,
        after.timers.len() == 32,
        forall|i: int, j: int|
            0 <= i < j < 32 && #[trigger] after.timers[i] is Some && #[trigger] after.timers[j] is Some
                ==> after.timers[i].unwrap().id != after.timers[j].unwrap().id,
        forall|i: int|
            0 <= i < 32 && #[trigger] after.timers[i] is Some ==> after.timer_ok(
                after.timers[i].unwrap(),
            ),
    ensures
        after.wf(),
{
    assert forall|pid: Pid| #[trigger] after.live(pid) == view.live(pid) by {}
    assert forall|i: int| 0 <= i < 32 && #[trigger] after.tasks[i] is Some implies after.task_ok(
        after.tasks[i].unwrap(),
    ) by {
        assert(view.task_ok(view.tasks[i].unwrap()));
        let parent = view.tasks[i].unwrap().parent;
        if parent is Some {
            assert(after.live(parent.unwrap()) == view.live(parent.unwrap()));
        }
    }
    if let Some(init) = view.init_pid {
        assert(after.live(init) == view.live(init));
    }
}

pub proof fn lemma_first_waiter(tasks: Seq<Option<Task>>, state: TaskState, count: nat)
    ensures
        -1 <= first_waiter(tasks, state, count) < count,
        first_waiter(tasks, state, count) >= 0 ==> waits(
            tasks,
            first_waiter(tasks, state, count),
            state,
        ),
        forall|i: int|
            0 <= i < count && #[trigger] waits(tasks, i, state) ==> first_waiter(tasks, state, count)
                >= 0 && {
                let first = first_waiter(tasks, state, count);
                ||| tasks[first].unwrap().wait_order < tasks[i].unwrap().wait_order
                ||| tasks[first].unwrap().wait_order == tasks[i].unwrap().wait_order && first <= i
            },
    decreases count,
{
    if count > 0 {
        lemma_first_waiter(tasks, state, (count - 1) as nat);
    }
}

/// Making a waiting task ready keeps the table in order.
proof fn lemma_readied(view: TableView, state: TaskState, index: int)
    requires
        view.wf(),
        0 <= index < 32,
        waits(view.tasks, index, state),
        !is_zombie(state),
    ensures
        (TableView { tasks: readied(view.tasks, index), ..view }).wf(),
{
    let task = view.tasks[index].unwrap();
    lemma_slot_is(view, index);
    assert(view.task_ok(task));
    lemma_replace(view, Task { state: TaskState::Ready, wait_order: 0, ..task });
    assert(view.with_task(Task { state: TaskState::Ready, wait_order: 0, ..task }).tasks
        =~= readied(view.tasks, index));
}

impl TaskTable {
    pub fn set_state(&mut self, pid: Pid, state: TaskState) -> (changed: bool)
        requires
            old(self).wf(),
        ensures
            final(self).wf(),
            (final(self)@, changed) == state_set(old(self)@, pid, state),
    {
        let slot: usize = self.find(pid);
        if slot < 32 {
            if let Some(task) = self.entries[slot] {
                assert(self@.task_ok(task));
                if let TaskState::Zombie(_) = task.state {
                    return false;
                }
                if let TaskState::Zombie(_) = state {
                    return false;
                }
                self.put(slot, Task { state, wait_order: 0, ..task });
                return true;
            }
        }
        false
    }

    /// Whether a task can be made to wait.
    fn ensure_runnable(&self, pid: Pid) -> (result: Result<(), TaskError>)
        requires
            self.wf(),
        ensures
            result is Ok <==> runnable_error(self@, pid) is None,
            result is Err ==> runnable_error(self@, pid) == Some(result->Err_0),
    {
        match self.get_by_pid(pid) {
            None => Err(TaskError::TaskNotFound),
            Some(task) => match task.state {
                TaskState::Zombie(_) => Err(TaskError::AlreadyExited),
                TaskState::Ready => Ok(()),
                TaskState::Running => Ok(()),
                _ => Err(TaskError::TaskNotRunnable),
            },
        }
    }

    /// Puts a task to wait behind all that wait already.
    fn enqueue(&mut self, pid: Pid, state: TaskState) -> (result: Result<(), TaskError>)
        requires
            old(self).wf(),
            !is_zombie(state),
        ensures
            final(self).wf(),
            (final(self)@, result) == queued(old(self)@, pid, state),
    {
        if let Err(error) = self.ensure_runnable(pid) {
            return Err(error);
        }
        let order: u64 = self.next_wait_order;
        if order == u64::MAX {
            return Err(TaskError::WaitOrderExhausted);
        }
        let slot: usize = self.find(pid);
        if slot < 32 {
            if let Some(task) = self.entries[slot] {
                assert(self@.task_ok(task));
                self.next_wait_order = order + 1;
                proof {
                    lemma_timers(old(self)@, self@);
                }
                self.put(slot, Task { state, wait_order: order, ..task });
                return Ok(());
            }
        }
        Err(TaskError::TaskNotFound)
    }

    pub fn futex_wait(&mut self, pid: Pid, address: u64, observed: u32, expected: u32) -> (result:
        Result<(), TaskError>)
        requires
            old(self).wf(),
        ensures
            final(self).wf(),
            (final(self)@, result) == futex_waited(old(self)@, pid, address, observed, expected),
    {
        if let Err(error) = validate_futex_address(address) {
            return Err(error);
        }
        if observed != expected {
            return Err(TaskError::FutexValueChanged);
        }
        self.enqueue(pid, TaskState::FutexWait(address))
    }

    /// The slot of the task that waits longest in `state`.
    fn longest_waiting(&self, state: TaskState) -> (slot: Option<usize>)
        ensures
            slot is None <==> first_waiter(self@.tasks, state, 32) < 0,
            slot is Some ==> first_waiter(self@.tasks, state, 32) == slot.unwrap(),
    {
        let mut slot: usize = 0;
        let mut best: Option<(usize, u64)> = None;
        while slot < 32
            invariant
                slot <= 32,
                self@.tasks.len() == 32,
                best is None <==> first_waiter(self@.tasks, state, slot as nat) < 0,
                best is Some ==> first_waiter(self@.tasks, state, slot as nat) == best.unwrap().0
                    && best.unwrap().0 < slot && self@.tasks[best.unwrap().0 as int] is Some
                    && self@.tasks[best.unwrap().0 as int].unwrap().wait_order == best.unwrap().1,
            decreases 32 - slot,
        {
            if let Some(task) = self.entries[slot] {
                if task.state == state {
                    let earlier = match best {
                        None => true,
                        Some((_, order)) => task.wait_order < order,
                    };
                    if earlier {
                        best = Some((slot, task.wait_order));
                    }
                }
            }
            slot += 1;
        }
        match best {
            Some((slot, _)) => Some(slot),
            None => None,
        }
    }

    /// Makes at most `maximum` of the tasks ready that wait in `state`.
    fn wake(&mut self, state: TaskState, maximum: usize) -> (count: usize)
        requires
            old(self).wf(),
            !is_zombie(state),
        ensures
            final(self).wf(),
            (final(self)@, Ok::<usize, TaskError>(count)) == wake_all(old(self)@, state, maximum),
    {
        let mut count: usize = 0;
        while count < maximum
            invariant_except_break
                self.wf(),
                !is_zombie(state),
                count <= maximum,
                self@ == (TableView { tasks: self@.tasks, ..old(self)@ }),
                ({
                    let rest = woken(self@.tasks, state, (maximum - count) as nat);
                    woken(old(self)@.tasks, state, maximum as nat) == (rest.0, (rest.1 + count) as nat)
                }),
            ensures
                self.wf(),
                self@ == (TableView { tasks: self@.tasks, ..old(self)@ }),
                woken(old(self)@.tasks, state, maximum as nat) == (self@.tasks, count as nat),
            decreases maximum - count,
        {
            proof {
                lemma_first_waiter(self@.tasks, state, 32);
            }
            match self.longest_waiting(state) {
                None => {
                    break;
                },
                Some(slot) => {
                    if let Some(task) = self.entries[slot] {
                        let ghost before = self@;
                        proof {
                            lemma_readied(before, state, slot as int);
                        }
                        self.entries[slot] = Some(
                            Task { state: TaskState::Ready, wait_order: 0, ..task },
                        );
                        assert(self@ =~= (TableView {
                            tasks: readied(before.tasks, slot as int),
                            ..before
                        }));
                    }
                    count += 1;
                },
            }
        }
        count
    }

    pub fn futex_wake(&mut self, address: u64, maximum: usize) -> (result: Result<
        usize,
        TaskError,
    >)
        requires
            old(self).wf(),
        ensures
            final(self).wf(),
            (final(self)@, result) == futex_woken(old(self)@, address, maximum),
    {
        if let Err(error) = validate_futex_address(address) {
            return Err(error);
        }
        Ok(self.wake(TaskState::FutexWait(address), maximum))
    }

    pub fn wait_queue_wait(&mut self, pid: Pid, key: u64) -> (result: Result<(), TaskError>)
        requires
            old(self).wf(),
        ensures
            final(self).wf(),
            (final(self)@, result) == queue_waited(old(self)@, pid, key),
    {
        if key == 0 {
            return Err(TaskError::InvalidWaitQueue);
        }
        self.enqueue(pid, TaskState::WaitQueue(key))
    }

    pub fn wait_queue_wake(&mut self, key: u64, maximum: usize) -> (result: Result<
        usize,
        TaskError,
    >)
        requires
            old(self).wf(),
        ensures
            final(self).wf(),
            (final(self)@, result) == queue_woken(old(self)@, key, maximum),
    {
        if key == 0 {
            return Err(TaskError::InvalidWaitQueue);
        }
        Ok(self.wake(TaskState::WaitQueue(key), maximum))
    }

    /// Enters a timer.
    fn insert_timer(
        &mut self,
        owner: Pid,
        deadline_ns: u64,
        interval_ns: u64,
        kind: TimerKind,
    ) -> (result: Result<u32, TaskError>)
        requires
            old(self).wf(),
            deadline_ns >= 1,
        ensures
            final(self).wf(),
            (final(self)@, result) == timer_inserted(
                old(self)@,
                owner,
                deadline_ns,
                interval_ns,
                kind,
            ),
    {
        let mut slot: usize = 0;
        while slot < 32 && self.timers[slot].is_some()
            invariant
                slot <= 32,
                self.wf(),
                self == old(self),
                free_from(self@.timers, 0) == free_from(self@.timers, slot as int),
            decreases 32 - slot,
        {
            slot += 1;
        }
        if slot >= 32 {
            return Err(TaskError::TimerTableFull);
        }
        let id: u32 = self.next_timer_id;
        if id == u32::MAX {
            return Err(TaskError::TimerIdExhausted);
        }
        self.next_timer_id = id + 1;
        self.timers[slot] = Some(KernelTimer { id, owner, deadline_ns, interval_ns, kind });
        proof {
            let after = timer_inserted(old(self)@, owner, deadline_ns, interval_ns, kind).0;
            assert(self@ =~= after);
            assert forall|i: int, j: int|
                0 <= i < j < 32 && #[trigger] after.timers[i] is Some
                    && #[trigger] after.timers[j] is Some implies after.timers[i].unwrap().id
                != after.timers[j].unwrap().id by {
                if i != slot {
                    assert(old(self)@.timers[i] is Some);
                    assert(old(self)@.timer_ok(old(self)@.timers[i].unwrap()));
                }
                if j != slot {
                    assert(old(self)@.timers[j] is Some);
                    assert(old(self)@.timer_ok(old(self)@.timers[j].unwrap()));
                }
            }
            assert forall|i: int|
                0 <= i < 32 && #[trigger] after.timers[i] is Some implies after.timer_ok(
                after.timers[i].unwrap(),
            ) by {
                if i != slot {
                    assert(old(self)@.timers[i] is Some);
                    assert(old(self)@.timer_ok(old(self)@.timers[i].unwrap()));
                }
            }
            lemma_timers(old(self)@, after);
        }
        Ok(id)
    }

    pub fn sleep_for(&mut self, pid: Pid, now_ns: u64, duration_ns: u64) -> (result: Result<
        u32,
        TaskError,
    >)
        requires
            old(self).wf(),
        ensures
            final(self).wf(),
            (final(self)@, result) == slept(old(self)@, pid, now_ns, duration_ns),
    {
        match checked_deadline(now_ns, duration_ns) {
            Err(error) => Err(error),
            Ok(deadline) => {
                if let Err(error) = self.ensure_runnable(pid) {
                    return Err(error);
                }
                let slot: usize = self.find(pid);
                match self.insert_timer(pid, deadline, 0, TimerKind::WakeTask) {
                    Err(error) => Err(error),
                    Ok(id) => {
                        if slot < 32 {
                            if let Some(task) = self.entries[slot] {
                                assert(self@.task_ok(task));
                                self.put(
                                    slot,
                                    Task {
                                        state: TaskState::Sleeping(id, deadline),
                                        wait_order: 0,
                                        ..task
                                    },
                                );
                            }
                        }
                        Ok(id)
                    },
                }
            },
        }
    }

    pub fn arm_timer(&mut self, pid: Pid, now_ns: u64, delay_ns: u64, interval_ns: u64) -> (result:
        Result<u32, TaskError>)
        requires
            old(self).wf(),
        ensures
            final(self).wf(),
            (final(self)@, result) == armed(old(self)@, pid, now_ns, delay_ns, interval_ns),
    {
        match checked_deadline(now_ns, delay_ns) {
            Err(error) => Err(error),
            Ok(deadline) => {
                if !self.is_live(pid) {
                    return Err(TaskError::TaskNotFound);
                }
                self.insert_timer(pid, deadline, interval_ns, TimerKind::NotifyTask)
            },
        }
    }

    /// The slot of the timer `id` of `owner`, or the number of slots.
    fn find_timer(&self, owner: Pid, id: u32) -> (slot: usize)
        ensures
            slot == timer_slot(self@.timers, owner, id, 0),
            slot <= 32,
    {
        let mut slot: usize = 0;
        while slot < 32
            invariant
                slot <= 32,
                self@.timers.len() == 32,
                timer_slot(self@.timers, owner, id, 0) == timer_slot(
                    self@.timers,
                    owner,
                    id,
                    slot as int,
                ),
            decreases 32 - slot,
        {
            if let Some(timer) = self.timers[slot] {
                if timer.id == id && timer.owner == owner {
                    return slot;
                }
            }
            slot += 1;
        }
        slot
    }

    /// Takes a timer out.
    fn drop_timer(&mut self, slot: usize)
        requires
            old(self).wf(),
            slot < 32,
        ensures
            final(self).wf(),
            final(self)@ == (TableView {
                timers: old(self)@.timers.update(slot as int, None),
                ..old(self)@
            }),
    {
        self.timers[slot] = None;
        proof {
            let after = TableView {
                timers: old(self)@.timers.update(slot as int, None),
                ..old(self)@
            };
            assert(self@ =~= after);
            lemma_timer_replaced(old(self)@, slot as int, None);
        }
    }

    pub fn cancel_timer(&mut self, pid: Pid, timer_id: u32) -> (result: Result<(), TaskError>)
        requires
            old(self).wf(),
        ensures
            final(self).wf(),
            (final(self)@, result) == cancelled(old(self)@, pid, timer_id),
    {
        let at: usize = self.find_timer(pid, timer_id);
        if at >= 32 {
            return Err(TaskError::TimerNotFound);
        }
        self.drop_timer(at);
        let slot: usize = self.find(pid);
        if slot < 32 {
            if let Some(task) = self.entries[slot] {
                assert(self@.task_ok(task));
                if let TaskState::Sleeping(id, _) = task.state {
                    if id == timer_id {
                        self.put(slot, Task { state: TaskState::Ready, ..task });
                    }
                }
            }
        }
        Ok(())
    }

    pub fn poll_timers(&mut self, now_ns: u64) -> (result: TimerPollResult)
        requires
            old(self).wf(),
        ensures
            final(self).wf(),
            (final(self)@, result) == polled(old(self)@, now_ns, 32),
    {
        let mut result = TimerPollResult { expirations: 0, woken: 0, rearmed: 0 };
        let mut index: usize = 0;
        while index < 32
            invariant
                index <= 32,
                self.wf(),
                (self@, result) == polled(old(self)@, now_ns, index as nat),
                result.woken <= index,
                result.rearmed <= index,
            decreases 32 - index,
        {
            result = self.poll_slot(result, now_ns, index);
            index += 1;
        }
        result
    }

    /// Looks at one timer.
    fn poll_slot(&mut self, result: TimerPollResult, now_ns: u64, index: usize) -> (next:
        TimerPollResult)
        requires
            old(self).wf(),
            index < 32,
            result.woken <= index,
            result.rearmed <= index,
        ensures
            final(self).wf(),
            (final(self)@, next) == polled_slot(old(self)@, result, now_ns, index as int),
            next.woken <= index + 1,
            next.rearmed <= index + 1,
    {
        if let Some(timer) = self.timers[index] {
            assert(self@.timer_ok(timer));
            if timer.deadline_ns > now_ns {
                return result;
            }
            let times: u64 = expired_periods(timer, now_ns);
            let next = rearm(timer, now_ns, times);
            let ghost before = self@;
            self.timers[index] = next;
            proof {
                lemma_timer_replaced(before, index as int, next);
                assert(self@ =~= (TableView {
                    timers: before.timers.update(index as int, next),
                    ..before
                }));
            }
            let mut polled = result;
            let counted: usize = if times <= usize::MAX as u64 {
                times as usize
            } else {
                usize::MAX
            };
            polled.expirations = result.expirations.saturating_add(counted);
            if next.is_some() {
                polled.rearmed = result.rearmed + 1;
            }
            let slot: usize = self.find(timer.owner);
            if slot < 32 {
                if let Some(task) = self.entries[slot] {
                    assert(self@.task_ok(task));
                    let told: u32 = if times <= u32::MAX as u64 {
                        times as u32
                    } else {
                        u32::MAX
                    };
                    let woken = match task.state {
                        TaskState::Sleeping(id, _) => timer.kind == TimerKind::WakeTask && id
                            == timer.id,
                        _ => false,
                    };
                    let state = if woken {
                        TaskState::Ready
                    } else {
                        task.state
                    };
                    self.put(
                        slot,
                        Task {
                            timer_expirations: task.timer_expirations.saturating_add(told),
                            state,
                            ..task
                        },
                    );
                    if woken {
                        polled.woken = result.woken + 1;
                    }
                }
            } else {
                self.drop_timer(index);
                assert(self@.timers =~= before.timers.update(index as int, None));
            }
            polled
        } else {
            result
        }
    }

    pub fn next_timer_deadline(&self) -> (deadline: Option<u64>)
        ensures
            deadline == earliest(self@.timers, 32),
    {
        let mut deadline: Option<u64> = None;
        let mut index: usize = 0;
        while index < 32
            invariant
                index <= 32,
                self@.timers.len() == 32,
                deadline == earliest(self@.timers, index as nat),
            decreases 32 - index,
        {
            if let Some(timer) = self.timers[index] {
                let earlier = match deadline {
                    None => true,
                    Some(deadline) => timer.deadline_ns < deadline,
                };
                if earlier {
                    deadline = Some(timer.deadline_ns);
                }
            }
            index += 1;
        }
        deadline
    }

    pub fn timer_count(&self) -> (count: usize)
        ensures
            count == used(self@.timers, 32),
    {
        let mut count: usize = 0;
        let mut index: usize = 0;
        while index < 32
            invariant
                index <= 32,
                count <= index,
                self@.timers.len() == 32,
                count == used(self@.timers, index as nat),
            decreases 32 - index,
        {
            if self.timers[index].is_some() {
                count += 1;
            }
            index += 1;
        }
        count
    }
}

/// Replacing a timer by none or by one with the same number keeps the table in order.
proof fn lemma_timer_replaced(view: TableView, at: int, timer: Option<KernelTimer>)
    requires
        view.wf(),
        0 <= at < 32,
        timer is Some ==> view.timers[at] is Some && view.timers[at].unwrap().id
            == timer.unwrap().id && timer.unwrap().deadline_ns >= 1,
    ensures
        (TableView { timers: view.timers.update(at, timer), ..view }).wf(),
{
    let after = TableView { timers: view.timers.update(at, timer), ..view };
    assert forall|i: int, j: int|
        0 <= i < j < 32 && #[trigger] after.timers[i] is Some && #[trigger] after.timers[j] is Some implies after.timers[i].unwrap().id
        != after.timers[j].unwrap().id by {
        assert(view.timers[i] is Some && view.timers[j] is Some);
    }
    assert forall|i: int| 0 <= i < 32 && #[trigger] after.timers[i] is Some implies after.timer_ok(
        after.timers[i].unwrap(),
    ) by {
        assert(view.timers[i] is Some);
        assert(view.timer_ok(view.timers[i].unwrap()));
    }
    lemma_timers(view, after);
}

/// How often a timer that is due has expired.
fn expired_periods(timer: KernelTimer, now_ns: u64) -> (times: u64)
    requires
        1 <= timer.deadline_ns <= now_ns,
    ensures
        times == periods(timer, now_ns),
        times >= 1,
{
    if timer.interval_ns == 0 {
        1
    } else {
        let late: u64 = now_ns - timer.deadline_ns;
        assert(late / timer.interval_ns <= late) by (nonlinear_arith)
            requires
                timer.interval_ns > 0,
        ;
        assert(late as int / timer.interval_ns as int >= 0) by (nonlinear_arith)
            requires
                timer.interval_ns > 0,
                late >= 0,
        ;
        late / timer.interval_ns + 1
    }
}

/// What becomes of a timer that is due.
fn rearm(timer: KernelTimer, now_ns: u64, times: u64) -> (next: Option<KernelTimer>)
    requires
        1 <= timer.deadline_ns <= now_ns,
        times == periods(timer, now_ns),
    ensures
        next == after_expiry(timer, now_ns),
        next is Some ==> next.unwrap().id == timer.id && next.unwrap().deadline_ns >= 1,
{
    if timer.interval_ns == 0 {
        return None;
    }
    match timer.interval_ns.checked_mul(times) {
        None => None,
        Some(elapsed) => match timer.deadline_ns.checked_add(elapsed) {
            None => None,
            Some(deadline_ns) => Some(KernelTimer { deadline_ns, ..timer }),
        },
    }
}

fn validate_futex_address(address: u64) -> (result: Result<(), TaskError>)
    ensures
        result == (if futex_address_ok(address) {
            Ok::<(), TaskError>(())
        } else {
            Err(TaskError::InvalidFutexAddress)
        }),
{
    if address == 0 || address % 4 != 0 {
        Err(TaskError::InvalidFutexAddress)
    } else {
        Ok(())
    }
}

fn checked_deadline(now_ns: u64, duration_ns: u64) -> (result: Result<u64, TaskError>)
    ensures
        result == (if duration_ns == 0 || now_ns + duration_ns > u64::MAX {
            Err::<u64, TaskError>(TaskError::InvalidTimeout)
        } else {
            Ok((now_ns + duration_ns) as u64)
        }),
{
    if duration_ns == 0 {
        return Err(TaskError::InvalidTimeout);
    }
    match now_ns.checked_add(duration_ns) {
        Some(deadline) => Ok(deadline),
        None => Err(TaskError::InvalidTimeout),
    }
}

/// A bit below the 33rd keeps the pending signals in range.
proof fn lemma_pending(pending: u64, signal: u64)
    by (bit_vector)
    requires
        pending < 0x2_0000_0000,
        signal <= 32,
    ensures
        pending | (1u64 << signal) < 0x2_0000_0000,
        pending & !(1u64 << signal) < 0x2_0000_0000,
{
}

/// The bits of a small number are low.
proof fn lemma_low_bits(pending: u64, mask: u64, index: u64)
    by (bit_vector)
    requires
        index < 64,
    ensures
        pending < 0x2_0000_0000 && ((pending & !mask) >> index) & 1 == 1 ==> index <= 32,
        mask < 0x100 && ((pending & mask) >> index) & 1 == 1 ==> index < 8,
        (pending & mask) & (1u64 << index) != 0 ==> ((pending & mask) >> index) & 1 == 1,
        ((pending & mask) >> index) & 1 == 1 ==> (pending & mask) & (1u64 << index) != 0,
{
}

/// The mask of at most eight processors.
proof fn lemma_cpu_mask(count: u64)
    by (bit_vector)
    requires
        1 <= count <= 8,
    ensures
        1 <= 1u64 << count <= 0x100,
{
}

/// The lowest bit of a number is one of its bits.
proof fn lemma_lowest_bit(value: u64)
    requires
        value != 0,
    ensures
        u64_trailing_zeros(value) < 64,
        (value >> (u64_trailing_zeros(value) as u64)) & 1 == 1,
{
    axiom_u64_trailing_zeros(value);
}

impl TaskTable {
    pub fn set_nice(&mut self, pid: Pid, nice: i8) -> (result: Result<(), TaskError>)
        requires
            old(self).wf(),
        ensures
            final(self).wf(),
            (final(self)@, result) == nice_set(old(self)@, pid, nice),
    {
        if nice < -20 || nice > 19 {
            return Err(TaskError::InvalidNice);
        }
        let slot: usize = self.find(pid);
        if slot < 32 {
            if let Some(task) = self.entries[slot] {
                assert(self@.task_ok(task));
                self.put(slot, Task { nice, ..task });
                return Ok(());
            }
        }
        Err(TaskError::TaskNotFound)
    }

    pub fn set_scheduler(&mut self, pid: Pid, policy: SchedulingPolicy, priority: u8) -> (result:
        Result<(), TaskError>)
        requires
            old(self).wf(),
        ensures
            final(self).wf(),
            (final(self)@, result) == scheduler_set(old(self)@, pid, policy, priority),
    {
        if (policy == SchedulingPolicy::Normal && priority != 0) || (policy
            != SchedulingPolicy::Normal && !(1 <= priority && priority <= 99)) {
            return Err(TaskError::InvalidPriority);
        }
        let slot: usize = self.find(pid);
        if slot < 32 {
            if let Some(task) = self.entries[slot] {
                assert(self@.task_ok(task));
                self.put(slot, Task { scheduling_policy: policy, rt_priority: priority, ..task });
                return Ok(());
            }
        }
        Err(TaskError::TaskNotFound)
    }

    pub fn set_affinity(&mut self, pid: Pid, requested_mask: u64, online_cpus: usize) -> (result:
        Result<u64, TaskError>)
        requires
            old(self).wf(),
        ensures
            final(self).wf(),
            (final(self)@, result) == affinity_set(old(self)@, pid, requested_mask, online_cpus),
    {
        let online: u64 = cpu_mask(online_cpus);
        let effective: u64 = requested_mask & online;
        if effective == 0 {
            return Err(TaskError::InvalidAffinity);
        }
        let slot: usize = self.find(pid);
        if slot < 32 {
            if let Some(task) = self.entries[slot] {
                assert(self@.task_ok(task));
                let mut cpu: usize = task.cpu;
                if effective & (1u64 << (task.cpu as u64)) == 0 {
                    proof {
                        lemma_lowest_bit(effective);
                        lemma_low_bits(
                            requested_mask,
                            online,
                            u64_trailing_zeros(effective) as u64,
                        );
                    }
                    cpu = effective.trailing_zeros() as usize;
                }
                self.put(slot, Task { cpu_affinity: effective, cpu, ..task });
                return Ok(effective);
            }
        }
        Err(TaskError::TaskNotFound)
    }

    pub fn account_tick(&mut self, pid: Pid) -> (result: Result<(), TaskError>)
        requires
            old(self).wf(),
        ensures
            final(self).wf(),
            (final(self)@, result) == ticked(old(self)@, pid),
    {
        let slot: usize = self.find(pid);
        if slot < 32 {
            if let Some(task) = self.entries[slot] {
                assert(self@.task_ok(task));
                self.put(slot, Task { runtime_ticks: task.runtime_ticks.saturating_add(1), ..task });
                return Ok(());
            }
        }
        Err(TaskError::TaskNotFound)
    }

    pub fn pick_next(&self, cpu: usize) -> (pid: Option<Pid>)
        requires
            self.wf(),
        ensures
            picked(self@, cpu, pid),
    {
        if cpu >= MAX_CPUS {
            return None;
        }
        let mut best: Option<Task> = None;
        let mut at: Ghost<int> = Ghost(0);
        let mut slot: usize = 0;
        while slot < 32
            invariant
                slot <= 32,
                cpu < 8,
                self.wf(),
                best is None ==> forall|i: int|
                    0 <= i < slot && #[trigger] self@.tasks[i] is Some ==> !eligible(
                        self@.tasks[i].unwrap(),
                        cpu,
                    ),
                best is Some ==> 0 <= at@ < slot && self@.tasks[at@] == best && eligible(
                    best.unwrap(),
                    cpu,
                ),
                best is Some ==> forall|i: int|
                    0 <= i < slot && #[trigger] self@.tasks[i] is Some && eligible(
                        self@.tasks[i].unwrap(),
                        cpu,
                    ) ==> self@.tasks[i].unwrap().pid == best.unwrap().pid || runs_before(
                        best.unwrap(),
                        self@.tasks[i].unwrap(),
                    ),
            decreases 32 - slot,
        {
            if let Some(task) = self.entries[slot] {
                let runnable = match task.state {
                    TaskState::Ready => true,
                    TaskState::Running => true,
                    _ => false,
                };
                if runnable && task.cpu_affinity & (1u64 << (cpu as u64)) != 0 && task.cpu == cpu {
                    match best {
                        None => {
                            best = Some(task);
                            at = Ghost(slot as int);
                        },
                        Some(other) => {
                            assert(self@.tasks[at@] is Some && self@.tasks[slot as int] is Some);
                            if runs_earlier(&task, &other) {
                                best = Some(task);
                                at = Ghost(slot as int);
                            }
                        },
                    }
                }
            }
            slot += 1;
        }
        match best {
            None => None,
            Some(task) => {
                proof {
                    lemma_slot_is(self@, at@);
                }
                Some(task.pid)
            },
        }
    }

    /// The number of runnable tasks of each processor.
    fn loads(&self, online: usize) -> (loads: [u16; 8])
        requires
            self.wf(),
            online <= 8,
        ensures
            loads@ == Seq::new(
                8,
                |cpu: int| load_of(self@.tasks, cpu, online as int, 32) as u16,
            ),
    {
        let mut loads: [u16; 8] = [0; 8];
        let mut slot: usize = 0;
        while slot < 32
            invariant
                slot <= 32,
                online <= 8,
                self.wf(),
                forall|cpu: int|
                    0 <= cpu < 8 ==> #[trigger] loads@[cpu] == load_of(
                        self@.tasks,
                        cpu,
                        online as int,
                        slot as nat,
                    ) && loads@[cpu] <= slot,
            decreases 32 - slot,
        {
            if let Some(task) = self.entries[slot] {
                assert(self@.task_ok(task));
                let runnable = match task.state {
                    TaskState::Ready => true,
                    TaskState::Running => true,
                    _ => false,
                };
                if runnable && task.cpu < online && task.cpu_affinity & (1u64 << (task.cpu as u64))
                    != 0 {
                    assert(loads@[task.cpu as int] <= slot);
                    loads[task.cpu] = loads[task.cpu] + 1;
                }
            }
            slot += 1;
        }
        assert(loads@ =~= Seq::new(
            8,
            |cpu: int| load_of(self@.tasks, cpu, online as int, 32) as u16,
        ));
        loads
    }

    pub fn rebalance(&mut self, online_cpus: usize) -> (result: Result<usize, TaskError>)
        requires
            old(self).wf(),
        ensures
            final(self).wf(),
            (final(self)@, result) == rebalanced(old(self)@, online_cpus),
    {
        let online: usize = if online_cpus < 1 {
            1
        } else if online_cpus > MAX_CPUS {
            MAX_CPUS
        } else {
            online_cpus
        };
        let mask: u64 = cpu_mask(online);
        let mut loads = self.loads(online);
        let mut migrations: usize = 0;
        let mut slot: usize = 0;
        proof {
            assert forall|cpu: int| 0 <= cpu < 8 implies #[trigger] loads@[cpu] <= 32 by {
                lemma_load_bound(self@.tasks, cpu, online as int, 32);
            }
        }
        while slot < 32
            invariant
                slot <= 32,
                migrations <= slot,
                1 <= online <= 8,
                mask == online_mask(online),
                mask < 0x100,
                self.wf(),
                self@ == (TableView { tasks: self@.tasks, ..old(self)@ }),
                balanced(old(self)@.tasks, online, slot as nat) == (Balance {
                    tasks: self@.tasks,
                    loads: loads@,
                    migrations: migrations as nat,
                    failed: false,
                }),
                forall|cpu: int| 0 <= cpu < 8 ==> #[trigger] loads@[cpu] <= 32 + slot,
                online == clamped_cpus(online_cpus),
            decreases 32 - slot,
        {
            let ghost state = balanced(old(self)@.tasks, online, slot as nat);
            let ghost next = balanced(old(self)@.tasks, online, (slot + 1) as nat);
            if let Some(task) = self.entries[slot] {
                assert(self@.task_ok(task));
                let runnable = match task.state {
                    TaskState::Ready => true,
                    TaskState::Running => true,
                    _ => false,
                };
                if runnable {
                    let allowed: u64 = task.cpu_affinity & mask;
                    if allowed == 0 {
                        proof {
                            assert(next.failed);
                            lemma_failed(old(self)@.tasks, online, (slot + 1) as nat, 32);
                        }
                        return Err(TaskError::NoEligibleCpu);
                    }
                    proof {
                        lemma_lowest_bit(allowed);
                        lemma_low_bits(task.cpu_affinity, mask, u64_trailing_zeros(allowed) as u64);
                        lemma_least_loaded(allowed, loads@, 8);
                        assert(allows(allowed, u64_trailing_zeros(allowed) as int));
                    }
                    match least_loaded_cpu(allowed, &loads) {
                        None => {
                            return Err(TaskError::NoEligibleCpu);
                        },
                        Some(target) => {
                            let may_stay = task.cpu < online && allowed & (1u64 << (task.cpu as u64))
                                != 0;
                            assert(loads@[task.cpu as int] <= 32 + slot && loads@[target as int]
                                <= 32 + slot);
                            if !may_stay || loads[task.cpu] > loads[target] + 1 {
                                if may_stay {
                                    loads[task.cpu] = loads[task.cpu] - 1;
                                }
                                let ghost before = self@;
                                proof {
                                    lemma_slot_is(before, slot as int);
                                }
                                self.put(slot, Task { cpu: target, ..task });
                                assert(loads@[target as int] <= 32 + slot);
                                loads[target] = loads[target] + 1;
                                migrations += 1;
                                assert(next.tasks =~= self@.tasks);
                                assert(next.loads =~= loads@);
                            }
                        },
                    }
                }
            }
            assert(next == (Balance {
                tasks: self@.tasks,
                loads: loads@,
                migrations: migrations as nat,
                failed: false,
            }));
            slot += 1;
        }
        Ok(migrations)
    }
}

proof fn lemma_load_bound(tasks: Seq<Option<Task>>, cpu: int, online: int, count: nat)
    ensures
        load_of(tasks, cpu, online, count) <= count,
    decreases count,
{
    if count > 0 {
        lemma_load_bound(tasks, cpu, online, (count - 1) as nat);
    }
}

/// A rebalancing that has failed changes nothing more.
proof fn lemma_failed(tasks: Seq<Option<Task>>, online: usize, from: nat, to: nat)
    requires
        from <= to,
        balanced(tasks, online, from).failed,
    ensures
        balanced(tasks, online, to) == balanced(tasks, online, from),
    decreases to - from,
{
    if from < to {
        lemma_failed(tasks, online, from, (to - 1) as nat);
    }
}

pub proof fn lemma_least_loaded(mask: u64, loads: Seq<u16>, count: nat)
    ensures
        -1 <= least_loaded(mask, loads, count) < count,
        least_loaded(mask, loads, count) >= 0 ==> allows(
            mask,
            least_loaded(mask, loads, count),
        ),
        forall|cpu: int|
            0 <= cpu < count && #[trigger] allows(mask, cpu) ==> least_loaded(mask, loads, count) >= 0
                && loads[least_loaded(mask, loads, count)] <= loads[cpu],
    decreases count,
{
    if count > 0 {
        lemma_least_loaded(mask, loads, (count - 1) as nat);
    }
}

/// Whether `left` runs before `right`.
fn runs_earlier(left: &Task, right: &Task) -> (before: bool)
    ensures
        before == runs_before(*left, *right),
{
    let left_real = left.scheduling_policy != SchedulingPolicy::Normal;
    let right_real = right.scheduling_policy != SchedulingPolicy::Normal;
    if left_real != right_real {
        left_real
    } else if left.rt_priority != right.rt_priority {
        left.rt_priority > right.rt_priority
    } else if left.nice != right.nice {
        left.nice < right.nice
    } else if left.runtime_ticks != right.runtime_ticks {
        left.runtime_ticks < right.runtime_ticks
    } else {
        left.pid < right.pid
    }
}

/// The processor that the mask allows with the least load, the lowest of them.
fn least_loaded_cpu(mask: u64, loads: &[u16; 8]) -> (cpu: Option<usize>)
    ensures
        cpu is None <==> least_loaded(mask, loads@, 8) < 0,
        cpu is Some ==> cpu.unwrap() == least_loaded(mask, loads@, 8),
{
    let mut best: Option<usize> = None;
    let mut cpu: usize = 0;
    while cpu < 8
        invariant
            cpu <= 8,
            best is None <==> least_loaded(mask, loads@, cpu as nat) < 0,
            best is Some ==> best.unwrap() == least_loaded(mask, loads@, cpu as nat)
                && best.unwrap() < cpu,
        decreases 8 - cpu,
    {
        if mask & (1u64 << (cpu as u64)) != 0 {
            let better = match best {
                None => true,
                Some(other) => loads[cpu] < loads[other],
            };
            if better {
                best = Some(cpu);
            }
        }
        cpu += 1;
    }
    best
}

fn cpu_mask(online_cpus: usize) -> (mask: u64)
    ensures
        mask == online_mask(online_cpus),
        mask < 0x100,
{
    let count: u64 = if online_cpus < 1 {
        1
    } else if online_cpus > MAX_CPUS {
        MAX_CPUS as u64
    } else {
        online_cpus as u64
    };
    proof {
        lemma_cpu_mask(count);
    }
    (1u64 << count) - 1
}

/// Taking out a task that is nobody's parent, or marking it as exited, keeps the table
/// in order.
proof fn lemma_removed(view: TableView, at: int, replaced: Option<Task>)
    requires
        view.wf(),
        0 <= at < 32,
        view.tasks[at] is Some,
        view.init_pid != Some(view.tasks[at].unwrap().pid),
        forall|i: int|
            0 <= i < 32 && #[trigger] view.tasks[i] is Some && view.init_pid != Some(
                view.tasks[i].unwrap().pid,
            ) ==> view.tasks[i].unwrap().parent != Some(view.tasks[at].unwrap().pid),
        replaced is Some ==> {
            let task = replaced.unwrap();
            let before = view.tasks[at].unwrap();
            &&& task.pid == before.pid
            &&& task.parent == before.parent
            &&& task.cpu == before.cpu
            &&& task.wait_order <= before.wait_order
            &&& task.pending_signals == before.pending_signals
            &&& task.exit_signal == before.exit_signal
            &&& is_zombie(task.state)
        },
    ensures
        (TableView { tasks: view.tasks.update(at, replaced), ..view }).wf(),
{
    let after = TableView { tasks: view.tasks.update(at, replaced), ..view };
    let gone = view.tasks[at].unwrap().pid;
    assert forall|pid: Pid| pid != gone implies #[trigger] after.live(pid) == view.live(pid) by {
        lemma_slot_same(view.tasks, after.tasks, pid, 0);
        lemma_slot(view.tasks, pid, 0);
    }
    assert forall|i: int| 0 <= i < 32 && #[trigger] after.tasks[i] is Some implies after.task_ok(
        after.tasks[i].unwrap(),
    ) by {
        assert(view.tasks[i] is Some);
        assert(view.task_ok(view.tasks[i].unwrap()));
        let parent = view.tasks[i].unwrap().parent;
        if parent is Some && parent != Some(gone) {
            assert(after.live(parent.unwrap()) == view.live(parent.unwrap()));
        }
    }
    assert forall|i: int, j: int|
        0 <= i < j < 32 && #[trigger] after.tasks[i] is Some && #[trigger] after.tasks[j] is Some implies after.tasks[i].unwrap().pid
        != after.tasks[j].unwrap().pid by {
        assert(view.tasks[i] is Some && view.tasks[j] is Some);
    }
    assert(view.init_pid is Some);
    let init = view.init_pid.unwrap();
    assert(after.live(init) == view.live(init));
}

/// Adoption keeps the table in order and leaves no child behind.
proof fn lemma_adopted(view: TableView, pid: Pid)
    requires
        view.wf(),
        view.task(pid) is Some,
        view.init_pid != Some(pid),
    ensures
        view.init_pid is Some,
        ({
            let after = TableView {
                tasks: adopted(view.tasks, pid, view.init_pid.unwrap()),
                timers: timers_without(view.timers, pid),
                ..view
            };
            &&& after.wf()
            &&& forall|i: int|
                0 <= i < 32 && #[trigger] after.tasks[i] is Some ==> after.tasks[i].unwrap().parent
                    != Some(pid)
            &&& forall|other: Pid| #[trigger] after.slot(other) == view.slot(other)
        }),
{
    lemma_slot(view.tasks, pid, 0);
    assert(view.tasks[view.slot(pid)] is Some);
    let init = view.init_pid.unwrap();
    let half = TableView { tasks: adopted(view.tasks, pid, init), ..view };
    assert forall|other: Pid| #[trigger] half.live(other) == view.live(other) && half.slot(other)
        == view.slot(other) by {
        lemma_slot_same(view.tasks, half.tasks, other, 0);
        lemma_slot(view.tasks, other, 0);
    }
    assert forall|i: int| 0 <= i < 32 && #[trigger] half.tasks[i] is Some implies half.task_ok(
        half.tasks[i].unwrap(),
    ) by {
        assert(view.tasks[i] is Some);
        assert(view.task_ok(view.tasks[i].unwrap()));
        let parent = view.tasks[i].unwrap().parent;
        if parent is Some {
            assert(half.live(parent.unwrap()) == view.live(parent.unwrap()));
        }
        assert(half.live(init) == view.live(init));
    }
    assert forall|i: int, j: int|
        0 <= i < j < 32 && #[trigger] half.tasks[i] is Some && #[trigger] half.tasks[j] is Some implies half.tasks[i].unwrap().pid
        != half.tasks[j].unwrap().pid by {
        assert(view.tasks[i] is Some && view.tasks[j] is Some);
    }
    assert(half.live(init) == view.live(init));
    assert(half.wf());
    let after = TableView { timers: timers_without(view.timers, pid), ..half };
    assert forall|i: int, j: int|
        0 <= i < j < 32 && #[trigger] after.timers[i] is Some && #[trigger] after.timers[j] is Some implies after.timers[i].unwrap().id
        != after.timers[j].unwrap().id by {
        assert(view.timers[i] is Some && view.timers[j] is Some);
    }
    assert forall|i: int| 0 <= i < 32 && #[trigger] after.timers[i] is Some implies after.timer_ok(
        after.timers[i].unwrap(),
    ) by {
        assert(view.timers[i] is Some);
        assert(view.timer_ok(view.timers[i].unwrap()));
    }
    lemma_timers(half, after);
    assert forall|other: Pid| #[trigger] after.slot(other) == view.slot(other) by {
        assert(half.live(other) == view.live(other));
    }
}

/// A signal that becomes pending keeps the table in order, and the parents.
proof fn lemma_with_pending(view: TableView, pid: Pid, signal: u8)
    requires
        view.wf(),
        signal <= 32,
    ensures
        with_pending(view, pid, signal).wf(),
        forall|other: Pid|
            #[trigger] with_pending(view, pid, signal).slot(other) == view.slot(other),
        forall|i: int|
            0 <= i < 32 ==> {
                let before = view.tasks[i];
                let after = #[trigger] with_pending(view, pid, signal).tasks[i];
                &&& before is Some <==> after is Some
                &&& before is Some ==> after == Some(
                    Task {
                        pending_signals: after.unwrap().pending_signals,
                        ..before.unwrap()
                    },
                )
            },
        forall|other: Pid|
            other != pid ==> #[trigger] with_pending(view, pid, signal).task(other) == view.task(
                other,
            ),
{
    lemma_slot(view.tasks, pid, 0);
    if view.task(pid) is Some {
        let task = view.task(pid).unwrap();
        assert(view.tasks[view.slot(pid)] is Some);
        assert(view.task_ok(task));
        lemma_pending(task.pending_signals, signal as u64);
        let changed = Task {
            pending_signals: task.pending_signals | (1u64 << (signal as u64)),
            ..task
        };
        lemma_replace(view, changed);
        let after = view.with_task(changed);
        assert forall|other: Pid| #[trigger] after.slot(other) == view.slot(other) by {
            lemma_slot_same(view.tasks, after.tasks, other, 0);
        }
    }
}

impl TaskTable {
    /// Makes a signal pending.
    fn add_pending(&mut self, pid: Pid, signal: Signal)
        requires
            old(self).wf(),
            signal <= 32,
        ensures
            final(self).wf(),
            final(self)@ == with_pending(old(self)@, pid, signal),
    {
        let slot: usize = self.find(pid);
        if slot < 32 {
            if let Some(task) = self.entries[slot] {
                assert(self@.task_ok(task));
                proof {
                    lemma_pending(task.pending_signals, signal as u64);
                }
                self.put(
                    slot,
                    Task {
                        pending_signals: task.pending_signals | (1u64 << (signal as u64)),
                        ..task
                    },
                );
            }
        }
    }

    /// Takes out the timers of a task.
    fn drop_timers(&mut self, pid: Pid)
        ensures
            final(self)@ == (TableView {
                timers: timers_without(old(self)@.timers, pid),
                ..old(self)@
            }),
    {
        let mut index: usize = 0;
        while index < 32
            invariant
                index <= 32,
                old(self)@.timers.len() == 32,
                self@ == (TableView { timers: self@.timers, ..old(self)@ }),
                self@.timers.len() == 32,
                forall|i: int|
                    0 <= i < index ==> #[trigger] self@.timers[i] == timers_without(
                        old(self)@.timers,
                        pid,
                    )[i],
                forall|i: int|
                    index <= i < 32 ==> #[trigger] self@.timers[i] == old(self)@.timers[i],
            decreases 32 - index,
        {
            if let Some(timer) = self.timers[index] {
                if timer.owner == pid {
                    let ghost before = self@;
                    self.timers[index] = None;
                    assert(self@ =~= (TableView {
                        timers: before.timers.update(index as int, None),
                        ..before
                    }));
                }
            }
            index += 1;
        }
        assert(self@.timers =~= timers_without(old(self)@.timers, pid));
    }

    /// Gives the children of a task to another and says whether one of them has exited.
    fn adopt(&mut self, pid: Pid, guardian: Pid) -> (zombie: bool)
        ensures
            final(self)@ == (TableView {
                tasks: adopted(old(self)@.tasks, pid, guardian),
                ..old(self)@
            }),
            zombie == leaves_zombie(old(self)@.tasks, pid),
    {
        let mut zombie = false;
        let mut index: usize = 0;
        while index < 32
            invariant
                index <= 32,
                old(self)@.tasks.len() == 32,
                self@ == (TableView { tasks: self@.tasks, ..old(self)@ }),
                self@.tasks.len() == 32,
                forall|i: int|
                    0 <= i < index ==> #[trigger] self@.tasks[i] == adopted(
                        old(self)@.tasks,
                        pid,
                        guardian,
                    )[i],
                forall|i: int| index <= i < 32 ==> #[trigger] self@.tasks[i] == old(self)@.tasks[i],
                zombie == exists|i: int|
                    0 <= i < index && #[trigger] old(self)@.tasks[i] is Some && old(
                        self,
                    )@.tasks[i].unwrap().parent == Some(pid) && is_zombie(
                        old(self)@.tasks[i].unwrap().state,
                    ),
            decreases 32 - index,
        {
            assert(self@.tasks[index as int] == old(self)@.tasks[index as int]);
            if let Some(task) = self.entries[index] {
                if task.parent == Some(pid) {
                    let ghost before = self@;
                    self.entries[index] = Some(Task { parent: Some(guardian), ..task });
                    assert(self@ =~= (TableView {
                        tasks: before.tasks.update(
                            index as int,
                            Some(Task { parent: Some(guardian), ..task }),
                        ),
                        ..before
                    }));
                    if let TaskState::Zombie(_) = task.state {
                        zombie = true;
                    }
                }
            }
            index += 1;
        }
        assert(self@.tasks =~= adopted(old(self)@.tasks, pid, guardian));
        zombie
    }

    pub fn exit(&mut self, pid: Pid, status: i32) -> (result: Result<(), TaskError>)
        requires
            old(self).wf(),
        ensures
            final(self).wf(),
            (final(self)@, result) == exited(old(self)@, pid, status),
    {
        let init: Pid = match self.init_pid {
            Some(init) => init,
            None => {
                proof {
                    lemma_slot(self@.tasks, pid, 0);
                    assert(self@.task(pid) is None);
                }
                return Err(TaskError::TaskNotFound);
            },
        };
        if init == pid {
            return Err(TaskError::InitCannotExit);
        }
        let slot: usize = self.find(pid);
        if slot >= 32 {
            return Err(TaskError::TaskNotFound);
        }
        let exiting = match self.entries[slot] {
            Some(task) => task,
            None => {
                return Err(TaskError::TaskNotFound);
            },
        };
        assert(self@.task_ok(exiting));
        if let TaskState::Zombie(_) = exiting.state {
            return Err(TaskError::AlreadyExited);
        }
        proof {
            lemma_adopted(self@, pid);
        }
        self.drop_timers(pid);
        let orphaned_zombie = self.adopt(pid, init);
        let ghost orphaned = self@;
        assert(orphaned =~= (TableView {
            timers: timers_without(old(self)@.timers, pid),
            tasks: adopted(old(self)@.tasks, pid, init),
            ..old(self)@
        }));
        if let (Some(parent), Some(signal)) = (exiting.parent, exiting.exit_signal) {
            proof {
                lemma_with_pending(self@, parent, signal);
            }
            self.add_pending(parent, signal);
        }
        let ghost told = self@;
        if orphaned_zombie {
            proof {
                lemma_with_pending(self@, init, SIGCHLD);
            }
            self.add_pending(init, SIGCHLD);
        }
        let ghost announced = self@;
        assert(announced == exit_announced(old(self)@, pid));
        assert(orphaned.tasks[slot as int] is Some);
        assert(orphaned.tasks[slot as int].unwrap().pid == pid);
        assert(told.tasks[slot as int] is Some && told.tasks[slot as int].unwrap().pid == pid);
        assert(announced.tasks[slot as int] is Some && announced.tasks[slot as int].unwrap().pid
            == pid);
        proof {
            assert forall|i: int| 0 <= i < 32 && #[trigger] announced.tasks[i] is Some implies {
                announced.tasks[i].unwrap().parent != Some(pid)
            } by {
                assert(told.tasks[i] is Some);
                assert(orphaned.tasks[i] is Some);
            }
            assert(orphaned.tasks[slot as int].unwrap().exit_signal == exiting.exit_signal);
            assert(announced.tasks[slot as int].unwrap().exit_signal == exiting.exit_signal);
        }
        if exiting.exit_signal.is_none() {
            proof {
                lemma_removed(announced, slot as int, None);
            }
            self.entries[slot] = None;
            assert(self@ =~= (TableView {
                tasks: announced.tasks.update(slot as int, None),
                ..announced
            }));
        } else if let Some(task) = self.entries[slot] {
            let zombie = Task {
                state: TaskState::Zombie(status),
                signal_frame: None,
                wait_order: 0,
                ..task
            };
            proof {
                lemma_removed(announced, slot as int, Some(zombie));
            }
            self.entries[slot] = Some(zombie);
            assert(self@ =~= (TableView {
                tasks: announced.tasks.update(slot as int, Some(zombie)),
                ..announced
            }));
        }
        Ok(())
    }

    pub fn wait(&mut self, parent: Pid, target: Option<Pid>) -> (result: Result<
        WaitResult,
        WaitError,
    >)
        requires
            old(self).wf(),
        ensures
            final(self).wf(),
            final(self)@ == waited(old(self)@, parent, target, 0).0,
            result == (match waited(old(self)@, parent, target, 0).1 {
                Ok(Some(child)) => Ok::<WaitResult, WaitError>(child),
                Ok(None) => Err(WaitError::WouldBlock),
                Err(error) => Err(error),
            }),
    {
        match self.wait4(parent, target, 0) {
            Ok(Some(child)) => Ok(child),
            Ok(None) => Err(WaitError::WouldBlock),
            Err(error) => Err(error),
        }
    }

    pub fn wait4(&mut self, parent: Pid, target: Option<Pid>, options: u32) -> (result: Result<
        Option<WaitResult>,
        WaitError,
    >)
        requires
            old(self).wf(),
        ensures
            final(self).wf(),
            (final(self)@, result) == waited(old(self)@, parent, target, options),
    {
        let parent_pgid: Pid = match self.get_by_pid(parent) {
            Some(task) => task.pgid,
            None => 0,
        };
        let mut has_child = false;
        let mut index: usize = 0;
        while index < 32
            invariant
                index <= 32,
                self.wf(),
                self == old(self),
                parent_pgid == (match self@.task(parent) {
                    Some(task) => task.pgid,
                    None => 0,
                }),
                zombie_slot(self@, parent, target, 0) == zombie_slot(
                    self@,
                    parent,
                    target,
                    index as int,
                ),
                has_child == exists|i: int|
                    0 <= i < index && #[trigger] child_at(self@, parent, target, i),
            decreases 32 - index,
        {
            if let Some(task) = self.entries[index] {
                let wanted = match target {
                    None => true,
                    Some(pid) => if pid == 0 {
                        task.pgid == parent_pgid
                    } else {
                        task.pid == pid
                    },
                };
                if task.parent == Some(parent) && wanted && task.exit_signal.is_some() {
                    assert(child_at(self@, parent, target, index as int));
                    has_child = true;
                    if let TaskState::Zombie(status) = task.state {
                        proof {
                            assert(self@.task_ok(task));
                            lemma_zombie_removed(self@, index as int);
                        }
                        self.entries[index] = None;
                        assert(self@ =~= (TableView {
                            tasks: old(self)@.tasks.update(index as int, None),
                            ..old(self)@
                        }));
                        return Ok(Some(WaitResult { pid: task.pid, status }));
                    }
                }
            }
            index += 1;
        }
        if !has_child {
            Err(WaitError::NoChild)
        } else if options % 2 == 1 {
            Ok(None)
        } else {
            Err(WaitError::WouldBlock)
        }
    }

    pub fn set_process_group(&mut self, pid: Pid, pgid: Pid) -> (result: Result<(), TaskError>)
        requires
            old(self).wf(),
        ensures
            final(self).wf(),
            (final(self)@, result) == group_set(old(self)@, pid, pgid),
    {
        let group: Pid = if pgid == 0 {
            pid
        } else {
            pgid
        };
        let slot: usize = self.find(pid);
        if slot < 32 {
            if let Some(task) = self.entries[slot] {
                assert(self@.task_ok(task));
                self.put(slot, Task { pgid: group, ..task });
                return Ok(());
            }
        }
        Err(TaskError::TaskNotFound)
    }

    pub fn setsid(&mut self, pid: Pid) -> (result: Result<Pid, TaskError>)
        requires
            old(self).wf(),
        ensures
            final(self).wf(),
            (final(self)@, result) == session_set(old(self)@, pid),
    {
        let slot: usize = self.find(pid);
        if slot < 32 {
            if let Some(task) = self.entries[slot] {
                assert(self@.task_ok(task));
                self.put(slot, Task { sid: pid, pgid: pid, ..task });
                return Ok(pid);
            }
        }
        Err(TaskError::TaskNotFound)
    }

    pub fn set_signal_action(&mut self, pid: Pid, signal: Signal, action: SignalAction) -> (result:
        Result<(), TaskError>)
        requires
            old(self).wf(),
        ensures
            final(self).wf(),
            (final(self)@, result) == action_set(old(self)@, pid, signal, action),
    {
        match signal_index(signal) {
            Err(error) => Err(error),
            Ok(index) => {
                let slot: usize = self.find(pid);
                if slot < 32 {
                    if let Some(task) = self.entries[slot] {
                        assert(self@.task_ok(task));
                        let mut signal_actions = task.signal_actions;
                        signal_actions[index] = action;
                        assert(signal_actions =~= spec_array_update(
                            task.signal_actions,
                            signal as int,
                            action,
                        ));
                        self.put(slot, Task { signal_actions, ..task });
                        return Ok(());
                    }
                }
                Err(TaskError::TaskNotFound)
            },
        }
    }

    pub fn send_signal(&mut self, pid: Pid, signal: Signal) -> (result: Result<(), TaskError>)
        requires
            old(self).wf(),
        ensures
            final(self).wf(),
            (final(self)@, result) == signalled(old(self)@, pid, signal),
    {
        let index: usize = match signal_index(signal) {
            Err(error) => {
                return Err(error);
            },
            Ok(index) => index,
        };
        let kills = signal == SIGKILL || signal == SIGTERM;
        if kills {
            if let Some(init) = self.init_pid {
                if init == pid {
                    return Err(TaskError::InitCannotExit);
                }
            }
        }
        let slot: usize = self.find(pid);
        if slot >= 32 {
            return Err(TaskError::TaskNotFound);
        }
        let task = match self.entries[slot] {
            Some(task) => task,
            None => {
                return Err(TaskError::TaskNotFound);
            },
        };
        assert(self@.task_ok(task));
        if let TaskState::Zombie(_) = task.state {
            return Err(TaskError::AlreadyExited);
        }
        proof {
            lemma_with_pending(self@, pid, signal);
            lemma_pending(task.pending_signals, signal as u64);
        }
        if kills && task.signal_actions[index].handler == 0 {
            self.add_pending(pid, signal);
            return self.exit(pid, 128 + signal as i32);
        }
        let pending_signals: u64 = task.pending_signals | (1u64 << (signal as u64));
        let (interrupted, timer) = match task.state {
            TaskState::FutexWait(_) => (true, None),
            TaskState::WaitQueue(_) => (true, None),
            TaskState::ChildWait => (true, None),
            TaskState::IpcWait => (true, None),
            TaskState::Sleeping(id, _) => (true, Some(id)),
            _ => (false, None),
        };
        self.put(slot, Task { pending_signals, ..task });
        if interrupted {
            self.put(
                slot,
                Task { pending_signals, state: TaskState::Ready, wait_order: 0, ..task },
            );
        }
        if let Some(id) = timer {
            let at: usize = self.find_timer(pid, id);
            if at < 32 {
                self.drop_timer(at);
            }
        }
        Ok(())
    }

    /// Delivers the lowest pending signal that is not blocked. The stack of a task that takes
    /// one lies below the address that its number gives.
    pub fn deliver_signal(&mut self, pid: Pid) -> (result: Result<SignalFrame, TaskError>)
        requires
            old(self).wf(),
            delivered(old(self)@, pid).1 is Ok ==> pid <= 0x7ff_ffff,
        ensures
            final(self).wf(),
            (final(self)@, result) == delivered(old(self)@, pid),
    {
        let slot: usize = self.find(pid);
        if slot < 32 {
            if let Some(task) = self.entries[slot] {
                assert(self@.task_ok(task));
                let deliverable: u64 = task.pending_signals & !task.signal_mask;
                if deliverable == 0 {
                    return Err(TaskError::NoSignalPending);
                }
                proof {
                    lemma_lowest_bit(deliverable);
                    lemma_low_bits(
                        task.pending_signals,
                        task.signal_mask,
                        u64_trailing_zeros(deliverable) as u64,
                    );
                    lemma_pending(task.pending_signals, u64_trailing_zeros(deliverable) as u64);
                }
                let signal: u32 = deliverable.trailing_zeros();
                let action = task.signal_actions[signal as usize];
                let frame = SignalFrame {
                    signum: signal as u8,
                    handler: action.handler,
                    restorer: 0xffff_ffff_8000_1000,
                    saved_ip: 0x0040_0000 + task.pid as u64,
                    saved_sp: 0x007f_ffff_f000 - task.pid as u64 * 0x1000,
                    saved_flags: 0x202,
                    blocked_mask: task.signal_mask,
                };
                self.put(
                    slot,
                    Task {
                        pending_signals: task.pending_signals & !(1u64 << (signal as u64)),
                        signal_frame: Some(frame),
                        ..task
                    },
                );
                return Ok(frame);
            }
        }
        Err(TaskError::TaskNotFound)
    }

    pub fn slots(&self) -> (count: usize)
        ensures
            count == self@.tasks.len(),
            count == MAX_TASKS,
    {
        32
    }

    pub fn active_count(&self) -> (count: usize)
        ensures
            count == used(self@.tasks, 32),
    {
        let mut count: usize = 0;
        let mut index: usize = 0;
        while index < 32
            invariant
                index <= 32,
                count <= index,
                self@.tasks.len() == 32,
                count == used(self@.tasks, index as nat),
            decreases 32 - index,
        {
            if self.entries[index].is_some() {
                count += 1;
            }
            index += 1;
        }
        count
    }

    pub fn zombie_count(&self) -> (count: usize)
        ensures
            count == zombies(self@.tasks, 32),
    {
        let mut count: usize = 0;
        let mut index: usize = 0;
        while index < 32
            invariant
                index <= 32,
                count <= index,
                self@.tasks.len() == 32,
                count == zombies(self@.tasks, index as nat),
            decreases 32 - index,
        {
            if let Some(task) = self.entries[index] {
                if let TaskState::Zombie(_) = task.state {
                    count += 1;
                }
            }
            index += 1;
        }
        count
    }

    pub fn get(&self, index: usize) -> (task: Option<Task>)
        ensures
            task == (if index < self@.tasks.len() {
                self@.tasks[index as int]
            } else {
                None
            }),
    {
        if index < 32 {
            self.entries[index]
        } else {
            None
        }
    }
}

/// A zombie is nobody's parent, so taking it out keeps the table in order.
proof fn lemma_zombie_removed(view: TableView, at: int)
    requires
        view.wf(),
        0 <= at < 32,
        view.tasks[at] is Some,
        is_zombie(view.tasks[at].unwrap().state),
    ensures
        (TableView { tasks: view.tasks.update(at, None), ..view }).wf(),
{
    let gone = view.tasks[at].unwrap().pid;
    lemma_slot_is(view, at);
    assert(!view.live(gone));
    assert forall|i: int|
        0 <= i < 32 && #[trigger] view.tasks[i] is Some && view.init_pid != Some(
            view.tasks[i].unwrap().pid,
        ) implies view.tasks[i].unwrap().parent != Some(gone) by {
        assert(view.task_ok(view.tasks[i].unwrap()));
    }
    lemma_removed(view, at, None);
}

fn signal_index(signal: Signal) -> (index: Result<usize, TaskError>)
    ensures
        index == (if signal_ok(signal) {
            Ok::<usize, TaskError>(signal as usize)
        } else {
            Err(TaskError::InvalidSignal)
        }),
{
    if signal == 0 || signal > 32 {
        Err(TaskError::InvalidSignal)
    } else {
        Ok(signal as usize)
    }
}

/// The table that all of the kernel shares.
pub struct SharedTaskTable {
    table: TaskTable,
}

impl View for SharedTaskTable {
    type V = TableView;

    closed spec fn view(&self) -> TableView {
        self.table@
    }
}

impl SharedTaskTable {
    /// The table keeps its rules.
    pub open spec fn wf(&self) -> bool {
        self@.wf()
    }

    pub fn new() -> (shared: Self)
        ensures
            shared@ == TableView::empty(),
            shared.wf(),
    {
        SharedTaskTable { table: TaskTable::new() }
    }

    pub fn spawn(&mut self, parent: Option<Pid>, name: &'static str, kind: TaskKind) -> (result:
        Result<Pid, TaskError>)
        requires
            old(self).wf(),
        ensures
            final(self).wf(),
            (final(self)@, result) == spawned(old(self)@, parent, name, kind, TaskRelation::Fork),
    {
        self.table.spawn(parent, name, kind)
    }

    pub fn fork(&mut self, parent: Pid) -> (result: Result<Pid, TaskError>)
        requires
            old(self).wf(),
        ensures
            final(self).wf(),
            (final(self)@, result) == forked(old(self)@, parent),
    {
        self.table.fork(parent)
    }

    pub fn clone_task(&mut self, parent: Pid, name: &'static str, clone_flags: u64) -> (result:
        Result<Pid, TaskError>)
        requires
            old(self).wf(),
        ensures
            final(self).wf(),
            (final(self)@, result) == cloned_task(old(self)@, parent, name, clone_flags),
    {
        self.table.clone_task(parent, name, clone_flags)
    }

    pub fn execve(&mut self, pid: Pid, path: &'static str) -> (result: Result<(), TaskError>)
        requires
            old(self).wf(),
        ensures
            final(self).wf(),
            (final(self)@, result) == executed(old(self)@, pid, path),
    {
        self.table.execve(pid, path)
    }

    pub fn get_by_pid(&self, pid: Pid) -> (task: Option<Task>)
        requires
            self.wf(),
        ensures
            task == self@.task(pid),
            task is Some ==> self@.task_ok(task.unwrap()) && task.unwrap().pid == pid,
    {
        self.table.get_by_pid(pid)
    }

    pub fn set_state(&mut self, pid: Pid, state: TaskState) -> (changed: bool)
        requires
            old(self).wf(),
        ensures
            final(self).wf(),
            (final(self)@, changed) == state_set(old(self)@, pid, state),
    {
        self.table.set_state(pid, state)
    }

    pub fn futex_wait(&mut self, pid: Pid, address: u64, observed: u32, expected: u32) -> (result:
        Result<(), TaskError>)
        requires
            old(self).wf(),
        ensures
            final(self).wf(),
            (final(self)@, result) == futex_waited(old(self)@, pid, address, observed, expected),
    {
        self.table.futex_wait(pid, address, observed, expected)
    }

    pub fn futex_wake(&mut self, address: u64, maximum: usize) -> (result: Result<
        usize,
        TaskError,
    >)
        requires
            old(self).wf(),
        ensures
            final(self).wf(),
            (final(self)@, result) == futex_woken(old(self)@, address, maximum),
    {
        self.table.futex_wake(address, maximum)
    }

    pub fn wait_queue_wait(&mut self, pid: Pid, key: u64) -> (result: Result<(), TaskError>)
        requires
            old(self).wf(),
        ensures
            final(self).wf(),
            (final(self)@, result) == queue_waited(old(self)@, pid, key),
    {
        self.table.wait_queue_wait(pid, key)
    }

    pub fn wait_queue_wake(&mut self, key: u64, maximum: usize) -> (result: Result<
        usize,
        TaskError,
    >)
        requires
            old(self).wf(),
        ensures
            final(self).wf(),
            (final(self)@, result) == queue_woken(old(self)@, key, maximum),
    {
        self.table.wait_queue_wake(key, maximum)
    }

    pub fn sleep_for(&mut self, pid: Pid, now_ns: u64, duration_ns: u64) -> (result: Result<
        u32,
        TaskError,
    >)
        requires
            old(self).wf(),
        ensures
            final(self).wf(),
            (final(self)@, result) == slept(old(self)@, pid, now_ns, duration_ns),
    {
        self.table.sleep_for(pid, now_ns, duration_ns)
    }

    pub fn arm_timer(&mut self, pid: Pid, now_ns: u64, delay_ns: u64, interval_ns: u64) -> (result:
        Result<u32, TaskError>)
        requires
            old(self).wf(),
        ensures
            final(self).wf(),
            (final(self)@, result) == armed(old(self)@, pid, now_ns, delay_ns, interval_ns),
    {
        self.table.arm_timer(pid, now_ns, delay_ns, interval_ns)
    }

    pub fn cancel_timer(&mut self, pid: Pid, timer_id: u32) -> (result: Result<(), TaskError>)
        requires
            old(self).wf(),
        ensures
            final(self).wf(),
            (final(self)@, result) == cancelled(old(self)@, pid, timer_id),
    {
        self.table.cancel_timer(pid, timer_id)
    }

    pub fn poll_timers(&mut self, now_ns: u64) -> (result: TimerPollResult)
        requires
            old(self).wf(),
        ensures
            final(self).wf(),
            (final(self)@, result) == polled(old(self)@, now_ns, 32),
    {
        self.table.poll_timers(now_ns)
    }

    pub fn next_timer_deadline(&self) -> (deadline: Option<u64>)
        ensures
            deadline == earliest(self@.timers, 32),
    {
        self.table.next_timer_deadline()
    }

    pub fn timer_count(&self) -> (count: usize)
        ensures
            count == used(self@.timers, 32),
    {
        self.table.timer_count()
    }

    pub fn set_nice(&mut self, pid: Pid, nice: i8) -> (result: Result<(), TaskError>)
        requires
            old(self).wf(),
        ensures
            final(self).wf(),
            (final(self)@, result) == nice_set(old(self)@, pid, nice),
    {
        self.table.set_nice(pid, nice)
    }

    pub fn set_scheduler(&mut self, pid: Pid, policy: SchedulingPolicy, priority: u8) -> (result:
        Result<(), TaskError>)
        requires
            old(self).wf(),
        ensures
            final(self).wf(),
            (final(self)@, result) == scheduler_set(old(self)@, pid, policy, priority),
    {
        self.table.set_scheduler(pid, policy, priority)
    }

    pub fn set_affinity(&mut self, pid: Pid, requested_mask: u64, online_cpus: usize) -> (result:
        Result<u64, TaskError>)
        requires
            old(self).wf(),
        ensures
            final(self).wf(),
            (final(self)@, result) == affinity_set(old(self)@, pid, requested_mask, online_cpus),
    {
        self.table.set_affinity(pid, requested_mask, online_cpus)
    }

    pub fn account_tick(&mut self, pid: Pid) -> (result: Result<(), TaskError>)
        requires
            old(self).wf(),
        ensures
            final(self).wf(),
            (final(self)@, result) == ticked(old(self)@, pid),
    {
        self.table.account_tick(pid)
    }

    pub fn pick_next(&self, cpu: usize) -> (pid: Option<Pid>)
        requires
            self.wf(),
        ensures
            picked(self@, cpu, pid),
    {
        self.table.pick_next(cpu)
    }

    pub fn rebalance(&mut self, online_cpus: usize) -> (result: Result<usize, TaskError>)
        requires
            old(self).wf(),
        ensures
            final(self).wf(),
            (final(self)@, result) == rebalanced(old(self)@, online_cpus),
    {
        self.table.rebalance(online_cpus)
    }

    pub fn exit(&mut self, pid: Pid, status: i32) -> (result: Result<(), TaskError>)
        requires
            old(self).wf(),
        ensures
            final(self).wf(),
            (final(self)@, result) == exited(old(self)@, pid, status),
    {
        self.table.exit(pid, status)
    }

    pub fn wait(&mut self, parent: Pid, target: Option<Pid>) -> (result: Result<
        WaitResult,
        WaitError,
    >)
        requires
            old(self).wf(),
        ensures
            final(self).wf(),
            final(self)@ == waited(old(self)@, parent, target, 0).0,
            result == (match waited(old(self)@, parent, target, 0).1 {
                Ok(Some(child)) => Ok::<WaitResult, WaitError>(child),
                Ok(None) => Err(WaitError::WouldBlock),
                Err(error) => Err(error),
            }),
    {
        self.table.wait(parent, target)
    }

    pub fn wait4(&mut self, parent: Pid, target: Option<Pid>, options: u32) -> (result: Result<
        Option<WaitResult>,
        WaitError,
    >)
        requires
            old(self).wf(),
        ensures
            final(self).wf(),
            (final(self)@, result) == waited(old(self)@, parent, target, options),
    {
        self.table.wait4(parent, target, options)
    }

    pub fn set_process_group(&mut self, pid: Pid, pgid: Pid) -> (result: Result<(), TaskError>)
        requires
            old(self).wf(),
        ensures
            final(self).wf(),
            (final(self)@, result) == group_set(old(self)@, pid, pgid),
    {
        self.table.set_process_group(pid, pgid)
    }

    pub fn setsid(&mut self, pid: Pid) -> (result: Result<Pid, TaskError>)
        requires
            old(self).wf(),
        ensures
            final(self).wf(),
            (final(self)@, result) == session_set(old(self)@, pid),
    {
        self.table.setsid(pid)
    }

    pub fn set_signal_action(&mut self, pid: Pid, signal: Signal, action: SignalAction) -> (result:
        Result<(), TaskError>)
        requires
            old(self).wf(),
        ensures
            final(self).wf(),
            (final(self)@, result) == action_set(old(self)@, pid, signal, action),
    {
        self.table.set_signal_action(pid, signal, action)
    }

    pub fn send_signal(&mut self, pid: Pid, signal: Signal) -> (result: Result<(), TaskError>)
        requires
            old(self).wf(),
        ensures
            final(self).wf(),
            (final(self)@, result) == signalled(old(self)@, pid, signal),
    {
        self.table.send_signal(pid, signal)
    }

    /// Delivers the lowest pending signal that is not blocked. The stack of a task that takes
    /// one lies below the address that its number gives.
    pub fn deliver_signal(&mut self, pid: Pid) -> (result: Result<SignalFrame, TaskError>)
        requires
            old(self).wf(),
            delivered(old(self)@, pid).1 is Ok ==> pid <= 0x7ff_ffff,
        ensures
            final(self).wf(),
            (final(self)@, result) == delivered(old(self)@, pid),
    {
        self.table.deliver_signal(pid)
    }

    pub fn slots(&self) -> (count: usize)
        ensures
            count == self@.tasks.len(),
            count == MAX_TASKS,
    {
        self.table.slots()
    }

    pub fn active_count(&self) -> (count: usize)
        ensures
            count == used(self@.tasks, 32),
    {
        self.table.active_count()
    }

    pub fn zombie_count(&self) -> (count: usize)
        ensures
            count == zombies(self@.tasks, 32),
    {
        self.table.zombie_count()
    }

    pub fn get(&self, index: usize) -> (task: Option<Task>)
        ensures
            task == (if index < self@.tasks.len() {
                self@.tasks[index as int]
            } else {
                None
            }),
    {
        self.table.get(index)
    }
}

} // verus!
