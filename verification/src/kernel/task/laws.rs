//! What holds of the task table over several calls.
use crate::kernel::task;
use crate::kernel::task::{
    KernelTimer, Pid, SchedulingPolicy, Task, TaskError, TaskKind, TaskRelation, TaskState,
    TableView, TimerKind, TimerPollResult, WaitError, WaitResult,
};
use vstd::prelude::*;
use vstd::std_specs::bits::*;

verus! {

/// The only child that is asked for by its number is found where it stands.
pub proof fn lemma_zombie_slot(view: TableView, parent: Pid, pid: Pid, at: int, from: int)
    requires
        view.wf(),
        0 <= from <= at < 32,
        pid != 0,
        view.tasks[at] is Some,
        view.tasks[at].unwrap().pid == pid,
        task::child_at(view, parent, Some(pid), at),
        task::is_zombie(view.tasks[at].unwrap().state),
    ensures
        task::zombie_slot(view, parent, Some(pid), from) == at,
    decreases at - from,
{
    if from < at {
        assert(!task::child_at(view, parent, Some(pid), from)) by {
            if view.tasks[from] is Some {
                assert(view.tasks[at] is Some);
            }
        }
        lemma_zombie_slot(view, parent, pid, at, from + 1);
    }
}

/// What an exit leaves in each slot: the number, and the parent unless it is the one
/// that exits.
pub proof fn lemma_announced(view: TableView, pid: Pid)
    requires
        view.wf(),
        view.live(pid),
        view.init_pid != Some(pid),
    ensures
        ({
            let after = task::exit_announced(view, pid);
            &&& after.wf()
            &&& after.init_pid == view.init_pid
            &&& forall|other: Pid| #[trigger] after.slot(other) == view.slot(other)
            &&& forall|i: int|
                0 <= i < 32 ==> (#[trigger] after.tasks[i] is Some <==> view.tasks[i] is Some)
            &&& forall|i: int|
                0 <= i < 32 && view.tasks[i] is Some ==> {
                    let old_task = view.tasks[i].unwrap();
                    &&& #[trigger] after.tasks[i] == Some(
                        Task {
                            pending_signals: after.tasks[i].unwrap().pending_signals,
                            parent: if old_task.parent == Some(pid) {
                                view.init_pid
                            } else {
                                old_task.parent
                            },
                            ..old_task
                        },
                    )
                }
        }),
{
    task::lemma_slot(view.tasks, pid, 0);
    let exiting = view.task(pid).unwrap();
    assert(view.tasks[view.slot(pid)] is Some);
    assert(view.task_ok(exiting));
    let init = view.init_pid.unwrap();
    task::lemma_adopted(view, pid);
    let orphaned = TableView {
        timers: task::timers_without(view.timers, pid),
        tasks: task::adopted(view.tasks, pid, init),
        ..view
    };
    let told = if exiting.parent is Some && exiting.exit_signal is Some {
        task::with_pending(orphaned, exiting.parent.unwrap(), exiting.exit_signal.unwrap())
    } else {
        orphaned
    };
    if exiting.parent is Some && exiting.exit_signal is Some {
        task::lemma_with_pending(
            orphaned,
            exiting.parent.unwrap(),
            exiting.exit_signal.unwrap(),
        );
    }
    if task::leaves_zombie(view.tasks, pid) {
        task::lemma_with_pending(told, init, task::SIGCHLD);
    }
    let after = task::exit_announced(view, pid);
    assert forall|other: Pid| #[trigger] after.slot(other) == view.slot(other) by {
        assert(told.slot(other) == orphaned.slot(other));
        assert(orphaned.slot(other) == view.slot(other));
    }
    assert forall|i: int| 0 <= i < 32 implies (#[trigger] after.tasks[i] is Some
        <==> view.tasks[i] is Some) by {
        assert(told.tasks[i] is Some <==> orphaned.tasks[i] is Some);
        assert(orphaned.tasks[i] is Some <==> view.tasks[i] is Some);
    }
    assert forall|i: int| 0 <= i < 32 && view.tasks[i] is Some implies {
        let old_task = view.tasks[i].unwrap();
        &&& #[trigger] after.tasks[i] == Some(
            Task {
                pending_signals: after.tasks[i].unwrap().pending_signals,
                parent: if old_task.parent == Some(pid) {
                    view.init_pid
                } else {
                    old_task.parent
                },
                ..old_task
            },
        )
    } by {
        assert(orphaned.tasks[i] is Some);
        assert(told.tasks[i] is Some);
        assert(after.tasks[i] is Some);
    }
}

/// No exit status is lost: the parent of a task that exited gets its status by waiting
/// for it, whatever the options, and only then the task is gone.
pub proof fn law_exit_status_is_kept(view: TableView, pid: Pid, status: i32, options: u32)
    requires
        view.wf(),
        view.live(pid),
        view.init_pid != Some(pid),
        view.task(pid).unwrap().exit_signal is Some,
    ensures
        ({
            let parent = view.task(pid).unwrap().parent.unwrap();
            let (after, result) = task::exited(view, pid, status);
            let (reaped, child) = task::waited(after, parent, Some(pid), options);
            &&& result is Ok
            &&& view.task(pid).unwrap().parent is Some
            &&& after.task(pid) matches Some(zombie) && zombie.state == TaskState::Zombie(status)
            &&& child == Ok::<Option<WaitResult>, WaitError>(Some(WaitResult { pid, status }))
            &&& reaped.task(pid) is None
        }),
{
    task::lemma_slot(view.tasks, pid, 0);
    let at = view.slot(pid);
    let exiting = view.task(pid).unwrap();
    assert(view.tasks[at] is Some);
    assert(view.task_ok(exiting));
    let parent = exiting.parent.unwrap();
    lemma_announced(view, pid);
    let announced = task::exit_announced(view, pid);
    let (after, result) = task::exited(view, pid, status);
    assert(announced.tasks[at] is Some);
    task::lemma_slot_same(announced.tasks, after.tasks, pid, 0);
    assert(announced.slot(pid) == at);
    assert(after.slot(pid) == at);
    lemma_exited(view, pid, status);
    assert(task::child_at(after, parent, Some(pid), at));
    lemma_zombie_slot(after, parent, pid, at, 0);
    let (reaped, child) = task::waited(after, parent, Some(pid), options);
    task::lemma_slot(reaped.tasks, pid, 0);
    if reaped.slot(pid) < 32 {
        assert(after.tasks[reaped.slot(pid)] is Some && after.tasks[at] is Some);
    }
}

/// Exiting keeps the table in order.
pub proof fn lemma_exited(view: TableView, pid: Pid, status: i32)
    requires
        view.wf(),
    ensures
        task::exited(view, pid, status).0.wf(),
{
    if view.init_pid != Some(pid) && view.live(pid) {
        task::lemma_slot(view.tasks, pid, 0);
        let at = view.slot(pid);
        assert(view.tasks[at] is Some);
        lemma_announced(view, pid);
        let announced = task::exit_announced(view, pid);
        let after = task::exited(view, pid, status).0;
        assert(announced.tasks[at] is Some);
        assert forall|i: int|
            0 <= i < 32 && #[trigger] announced.tasks[i] is Some && announced.init_pid != Some(
                announced.tasks[i].unwrap().pid,
            ) implies announced.tasks[i].unwrap().parent != Some(pid) by {
            assert(view.tasks[i] is Some);
        }
        task::lemma_removed(announced, at, after.tasks[at]);
    }
}

/// The first task adopts orphans: whoever was a child of a task that exits is a child of
/// the first task after it.
pub proof fn law_first_task_adopts_orphans(view: TableView, pid: Pid, status: i32, child: Pid)
    requires
        view.wf(),
        view.live(pid),
        view.init_pid != Some(pid),
        view.task(child) matches Some(task) && task.parent == Some(pid),
    ensures
        task::exited(view, pid, status).0.task(child) matches Some(task) && task.parent
            == view.init_pid && task.state == view.task(child).unwrap().state,
{
    task::lemma_slot(view.tasks, pid, 0);
    task::lemma_slot(view.tasks, child, 0);
    let at = view.slot(child);
    assert(view.tasks[at] is Some);
    assert(view.task_ok(view.tasks[at].unwrap()));
    lemma_announced(view, pid);
    let announced = task::exit_announced(view, pid);
    let after = task::exited(view, pid, status).0;
    assert(announced.slot(child) == at);
    assert(announced.tasks[at] is Some);
    assert(announced.tasks[view.slot(pid)] is Some);
    task::lemma_slot_same(announced.tasks, after.tasks, child, 0);
}

/// A task number is given out once: it is new, and every later one is greater.
pub proof fn law_task_numbers_grow(
    view: TableView,
    parent: Option<Pid>,
    name: &'static str,
    kind: TaskKind,
    relation: TaskRelation,
    older: Pid,
)
    requires
        view.wf(),
        view.task(older) is Some,
    ensures
        ({
            let (after, result) = task::spawned(view, parent, name, kind, relation);
            result matches Ok(pid) ==> older < pid < after.next_pid && view.task(pid) is None
                && after.task(pid) is Some
        }),
{
    let (after, result) = task::spawned(view, parent, name, kind, relation);
    task::lemma_slot(view.tasks, older, 0);
    assert(view.tasks[view.slot(older)] is Some);
    if let Ok(pid) = result {
        task::lemma_free(view.tasks, 0);
        task::lemma_slot(view.tasks, pid, 0);
        if view.slot(pid) < 32 {
            assert(view.tasks[view.slot(pid)] is Some);
        }
        task::lemma_slot(after.tasks, pid, 0);
        assert(after.tasks[task::free_from(view.tasks, 0)] is Some);
    }
}

/// Waiting puts a task behind every other.
pub proof fn law_waiting_queues_last(view: TableView, pid: Pid, state: TaskState, other: Pid)
    requires
        view.wf(),
        !task::is_zombie(state),
        task::queued(view, pid, state).1 is Ok,
        other != pid,
        view.task(other) is Some,
    ensures
        ({
            let after = task::queued(view, pid, state).0;
            &&& after.task(pid) matches Some(task) && task.state == state
            &&& after.task(other) == view.task(other)
            &&& after.task(other).unwrap().wait_order < after.task(pid).unwrap().wait_order
        }),
{
    let between = TableView { next_wait_order: (view.next_wait_order + 1) as u64, ..view };
    task::lemma_timers(view, between);
    task::lemma_slot(view.tasks, pid, 0);
    task::lemma_slot(view.tasks, other, 0);
    assert(view.tasks[view.slot(pid)] is Some);
    assert(view.tasks[view.slot(other)] is Some);
    let waiting = Task {
        state,
        wait_order: view.next_wait_order,
        ..view.task(pid).unwrap()
    };
    assert(between.task(pid) == view.task(pid));
    assert(between.task(other) == view.task(other));
    task::lemma_replace(between, waiting);
}

/// Waking is fair: a task is not made ready while one stays that waits for the same
/// and has waited longer.
pub proof fn law_waiters_wake_in_order(
    tasks: Seq<Option<Task>>,
    state: TaskState,
    maximum: nat,
    earlier: int,
    later: int,
)
    requires
        tasks.len() == 32,
        state != TaskState::Ready,
        0 <= earlier < 32,
        0 <= later < 32,
        task::waits(tasks, earlier, state),
        task::waits(tasks, later, state),
        tasks[earlier].unwrap().wait_order < tasks[later].unwrap().wait_order,
    ensures
        task::waits(task::woken(tasks, state, maximum).0, earlier, state) ==> task::waits(
            task::woken(tasks, state, maximum).0,
            later,
            state,
        ),
    decreases maximum,
{
    task::lemma_first_waiter(tasks, state, 32);
    let first = task::first_waiter(tasks, state, 32);
    if maximum > 0 {
        let next = task::readied(tasks, first);
        if first == earlier {
            lemma_woken_stays(next, state, (maximum - 1) as nat, earlier);
        } else {
            assert(task::waits(next, earlier, state));
            assert(task::waits(next, later, state));
            law_waiters_wake_in_order(next, state, (maximum - 1) as nat, earlier, later);
        }
    }
}

/// A task that does not wait in a state is not touched by a waking.
proof fn lemma_woken_stays(tasks: Seq<Option<Task>>, state: TaskState, maximum: nat, index: int)
    requires
        tasks.len() == 32,
        0 <= index < 32,
        !task::waits(tasks, index, state),
    ensures
        task::woken(tasks, state, maximum).0.len() == 32,
        task::woken(tasks, state, maximum).0[index] == tasks[index],
    decreases maximum,
{
    task::lemma_first_waiter(tasks, state, 32);
    let first = task::first_waiter(tasks, state, 32);
    if maximum > 0 && first >= 0 {
        lemma_woken_stays(task::readied(tasks, first), state, (maximum - 1) as nat, index);
    }
}

/// Waking without a limit leaves nobody waiting.
pub proof fn law_waking_all_leaves_none(
    tasks: Seq<Option<Task>>,
    state: TaskState,
    maximum: nat,
    index: int,
)
    requires
        tasks.len() == 32,
        state != TaskState::Ready,
        waiting(tasks, state, 32) <= maximum,
        0 <= index < 32,
    ensures
        !task::waits(task::woken(tasks, state, maximum).0, index, state),
        task::woken(tasks, state, maximum).1 == waiting(tasks, state, 32),
    decreases maximum,
{
    task::lemma_first_waiter(tasks, state, 32);
    let first = task::first_waiter(tasks, state, 32);
    if first < 0 {
        lemma_none_waiting(tasks, state, 32);
    } else {
        lemma_waiting_less(tasks, state, first, 32);
        law_waking_all_leaves_none(
            task::readied(tasks, first),
            state,
            (maximum - 1) as nat,
            index,
        );
    }
}

/// How many of the first `count` slots hold a task that waits in `state`.
pub open spec fn waiting(tasks: Seq<Option<Task>>, state: TaskState, count: nat) -> nat
    decreases count,
{
    if count == 0 {
        0
    } else {
        waiting(tasks, state, (count - 1) as nat) + (if task::waits(tasks, count - 1, state) {
            1nat
        } else {
            0nat
        })
    }
}

proof fn lemma_none_waiting(tasks: Seq<Option<Task>>, state: TaskState, count: nat)
    requires
        forall|i: int| 0 <= i < count ==> !#[trigger] task::waits(tasks, i, state),
    ensures
        waiting(tasks, state, count) == 0,
    decreases count,
{
    if count > 0 {
        lemma_none_waiting(tasks, state, (count - 1) as nat);
    }
}

proof fn lemma_waiting_less(tasks: Seq<Option<Task>>, state: TaskState, index: int, count: nat)
    requires
        0 <= index < tasks.len(),
        count <= tasks.len(),
        state != TaskState::Ready,
        task::waits(tasks, index, state),
    ensures
        waiting(task::readied(tasks, index), state, count) == waiting(tasks, state, count) - (
        if index < count {
            1int
        } else {
            0int
        }),
    decreases count,
{
    if count > 0 {
        lemma_waiting_less(tasks, state, index, (count - 1) as nat);
        assert(task::waits(task::readied(tasks, index), count - 1, state) <==> (task::waits(
            tasks,
            count - 1,
            state,
        ) && count - 1 != index));
    }
}

/// Timers that are not due change nothing.
pub proof fn law_timers_wait_for_their_time(view: TableView, now_ns: u64, count: nat)
    requires
        view.wf(),
        count <= 32,
        forall|i: int|
            0 <= i < 32 && #[trigger] view.timers[i] is Some ==> view.timers[i].unwrap().deadline_ns
                > now_ns,
    ensures
        task::polled(view, now_ns, count) == (
            view,
            TimerPollResult { expirations: 0, woken: 0, rearmed: 0 },
        ),
    decreases count,
{
    if count > 0 {
        law_timers_wait_for_their_time(view, now_ns, (count - 1) as nat);
    }
}

/// What looking at the first timers keeps: the table is in order, the later timers are
/// as they were, and a task sleeps on for as long as its own timer was not looked at.
pub proof fn lemma_polled(view: TableView, now_ns: u64, count: nat)
    requires
        view.wf(),
        count <= 32,
    ensures
        ({
            let after = task::polled(view, now_ns, count).0;
            &&& after.wf()
            &&& after.next_pid == view.next_pid
            &&& after.init_pid == view.init_pid
            &&& after.next_timer_id == view.next_timer_id
            &&& forall|i: int| count <= i < 32 ==> #[trigger] after.timers[i] == view.timers[i]
            &&& forall|pid: Pid| (#[trigger] after.task(pid)) is Some <==> view.task(pid) is Some
            &&& forall|pid: Pid|
                (#[trigger] after.task(pid)) is Some ==> after.task(pid) == Some(
                    Task {
                        state: after.task(pid).unwrap().state,
                        timer_expirations: after.task(pid).unwrap().timer_expirations,
                        ..view.task(pid).unwrap()
                    },
                ) && (after.task(pid).unwrap().state == view.task(pid).unwrap().state
                    || after.task(pid).unwrap().state == TaskState::Ready)
        }),
    decreases count,
{
    if count > 0 {
        lemma_polled(view, now_ns, (count - 1) as nat);
        let (before, result) = task::polled(view, now_ns, (count - 1) as nat);
        lemma_polled_slot(before, result, now_ns, count - 1);
    }
}

/// Looking at one timer touches that timer and its owner.
proof fn lemma_polled_slot(before: TableView, result: TimerPollResult, now_ns: u64, index: int)
    requires
        before.wf(),
        0 <= index < 32,
    ensures
        ({
            let after = task::polled_slot(before, result, now_ns, index).0;
            &&& after.wf()
            &&& after.next_pid == before.next_pid
            &&& after.init_pid == before.init_pid
            &&& after.next_timer_id == before.next_timer_id
            &&& forall|i: int| 0 <= i < 32 && i != index ==> #[trigger] after.timers[i]
                == before.timers[i]
            &&& forall|pid: Pid| (#[trigger] after.task(pid)) is Some <==> before.task(pid) is Some
            &&& forall|pid: Pid|
                (#[trigger] after.task(pid)) is Some ==> after.task(pid) == Some(
                    Task {
                        state: after.task(pid).unwrap().state,
                        timer_expirations: after.task(pid).unwrap().timer_expirations,
                        ..before.task(pid).unwrap()
                    },
                )
            &&& forall|pid: Pid|
                (#[trigger] after.task(pid)) is Some && after.task(pid).unwrap().state
                    != before.task(pid).unwrap().state ==> {
                    &&& after.task(pid).unwrap().state == TaskState::Ready
                    &&& before.timers[index] is Some
                    &&& before.task(pid).unwrap().state is Sleeping
                    &&& before.task(pid).unwrap().state->Sleeping_0
                        == before.timers[index].unwrap().id
                    &&& before.timers[index].unwrap().deadline_ns <= now_ns
                }
        }),
{
    let after = task::polled_slot(before, result, now_ns, index).0;
    if before.timers[index] is Some && before.timers[index].unwrap().deadline_ns <= now_ns {
        let timer = before.timers[index].unwrap();
        assert(before.timer_ok(timer));
        let next = task::after_expiry(timer, now_ns);
        lemma_next_deadline(timer, now_ns);
        task::lemma_timer_replaced(before, index, None);
        task::lemma_timer_replaced(before, index, next);
        let between = TableView { timers: before.timers.update(index, next), ..before };
        assert forall|pid: Pid| #[trigger] between.task(pid) == before.task(pid) by {}
        if before.task(timer.owner) is Some {
            task::lemma_slot(before.tasks, timer.owner, 0);
            assert(before.tasks[before.slot(timer.owner)] is Some);
            let owner = before.task(timer.owner).unwrap();
            assert(before.task_ok(owner));
            assert(between.task(timer.owner) == before.task(timer.owner));
            let changed = after.tasks[before.slot(timer.owner)].unwrap();
            assert(after == between.with_task(changed));
            task::lemma_replace(between, changed);
            assert forall|pid: Pid| pid != timer.owner implies #[trigger] after.task(pid)
                == before.task(pid) by {
                assert(between.task(pid) == before.task(pid));
            }
        } else {
            let plain = TableView { timers: before.timers.update(index, None), ..before };
            assert(after == plain);
            assert forall|pid: Pid| #[trigger] after.task(pid) == before.task(pid) by {}
        }
    }
}

proof fn lemma_next_deadline(timer: KernelTimer, now_ns: u64)
    requires
        1 <= timer.deadline_ns <= now_ns,
    ensures
        task::after_expiry(timer, now_ns) matches Some(next) ==> next.id == timer.id
            && next.deadline_ns > now_ns && next.owner == timer.owner && next.kind == timer.kind
            && next.interval_ns == timer.interval_ns,
{
    if timer.interval_ns != 0 {
        let late = now_ns - timer.deadline_ns;
        let interval = timer.interval_ns as int;
        assert(interval * (late / interval + 1) > late) by (nonlinear_arith)
            requires
                interval > 0,
                late >= 0,
        ;
    }
}

/// A periodic timer that was looked at is due again only later.
pub proof fn law_periodic_timers_move_on(timer: KernelTimer, now_ns: u64)
    requires
        1 <= timer.deadline_ns <= now_ns,
    ensures
        task::after_expiry(timer, now_ns) matches Some(next) ==> next == (KernelTimer {
            deadline_ns: next.deadline_ns,
            ..timer
        }) && next.deadline_ns > now_ns && next.deadline_ns <= now_ns + timer.interval_ns,
{
    lemma_next_deadline(timer, now_ns);
    if timer.interval_ns != 0 {
        let late = now_ns - timer.deadline_ns;
        let interval = timer.interval_ns as int;
        assert(interval * (late / interval + 1) <= late + interval) by (nonlinear_arith)
            requires
                interval > 0,
                late >= 0,
        ;
    }
}

/// A task that sleeps is ready after the first look at the timers when its time has
/// come.
pub proof fn law_sleepers_wake(view: TableView, now_ns: u64, pid: Pid, slot: int)
    requires
        view.wf(),
        0 <= slot < 32,
        view.timers[slot] is Some,
        view.timers[slot].unwrap().owner == pid,
        view.timers[slot].unwrap().kind == TimerKind::WakeTask,
        view.timers[slot].unwrap().deadline_ns <= now_ns,
        view.task(pid) matches Some(task) && task.state is Sleeping && task.state->Sleeping_0
            == view.timers[slot].unwrap().id,
    ensures
        task::polled(view, now_ns, 32).0.task(pid) matches Some(task) && task.state
            == TaskState::Ready,
{
    lemma_sleeps_until(view, now_ns, pid, slot, slot as nat);
    let (before, result) = task::polled(view, now_ns, slot as nat);
    lemma_polled(view, now_ns, slot as nat);
    lemma_polled_slot(before, result, now_ns, slot);
    let timer = view.timers[slot].unwrap();
    let next = task::after_expiry(timer, now_ns);
    task::lemma_timer_replaced(before, slot, None);
    assert(before.timers[slot] == view.timers[slot]);
    assert(view.timer_ok(timer));
    assert(before.timer_ok(timer));
    lemma_next_deadline(timer, now_ns);
    task::lemma_timer_replaced(before, slot, next);
    let between = TableView { timers: before.timers.update(slot, next), ..before };
    assert(between.task(pid) == before.task(pid));
    let owner = before.task(pid).unwrap();
    task::lemma_slot(before.tasks, pid, 0);
    assert(before.tasks[before.slot(pid)] is Some);
    assert(before.task_ok(owner));
    let after = task::polled(view, now_ns, (slot + 1) as nat).0;
    assert(after == task::polled_slot(before, result, now_ns, slot).0);
    let changed = after.tasks[before.slot(pid)].unwrap();
    task::lemma_replace(between, changed);
    assert(after == between.with_task(changed));
    assert(after.task(pid) == Some(changed));
    lemma_stays_ready(view, now_ns, pid, (slot + 1) as nat, 32);
}

proof fn lemma_sleeps_until(view: TableView, now_ns: u64, pid: Pid, slot: int, count: nat)
    requires
        view.wf(),
        0 <= slot < 32,
        count <= slot,
        view.timers[slot] is Some,
        view.task(pid) matches Some(task) && task.state is Sleeping && task.state->Sleeping_0
            == view.timers[slot].unwrap().id,
    ensures
        task::polled(view, now_ns, count).0.task(pid) matches Some(task) && task.state
            == view.task(pid).unwrap().state,
    decreases count,
{
    if count > 0 {
        lemma_sleeps_until(view, now_ns, pid, slot, (count - 1) as nat);
        lemma_polled(view, now_ns, (count - 1) as nat);
        let (before, result) = task::polled(view, now_ns, (count - 1) as nat);
        lemma_polled_slot(before, result, now_ns, count - 1);
        assert(before.timers[count - 1] == view.timers[count - 1]);
        let after = task::polled(view, now_ns, count).0;
        assert(after.task(pid) is Some <==> before.task(pid) is Some);
        if view.timers[count - 1] is Some {
            assert(view.timers[count - 1].unwrap().id != view.timers[slot].unwrap().id);
        }
    }
}

proof fn lemma_stays_ready(view: TableView, now_ns: u64, pid: Pid, from: nat, to: nat)
    requires
        view.wf(),
        from <= to <= 32,
        task::polled(view, now_ns, from).0.task(pid) matches Some(task) && task.state
            == TaskState::Ready,
    ensures
        task::polled(view, now_ns, to).0.task(pid) matches Some(task) && task.state
            == TaskState::Ready,
    decreases to - from,
{
    if from < to {
        lemma_stays_ready(view, now_ns, pid, from, (to - 1) as nat);
        lemma_polled(view, now_ns, (to - 1) as nat);
        let (before, result) = task::polled(view, now_ns, (to - 1) as nat);
        lemma_polled_slot(before, result, now_ns, to - 1);
        let after = task::polled(view, now_ns, to).0;
        assert(after.task(pid) is Some <==> before.task(pid) is Some);
    }
}

/// After a rebalancing that succeeded every runnable task stands on a processor that is
/// online and that it may use.
pub proof fn law_rebalancing_places_tasks(view: TableView, online_cpus: usize, index: int)
    requires
        view.wf(),
        0 <= index < 32,
        task::rebalanced(view, online_cpus).1 is Ok,
        view.tasks[index] matches Some(task) && task::is_runnable(task.state),
    ensures
        ({
            let after = task::rebalanced(view, online_cpus).0.tasks[index];
            &&& after == Some(Task { cpu: after.unwrap().cpu, ..view.tasks[index].unwrap() })
            &&& after.unwrap().cpu < task::clamped_cpus(online_cpus)
            &&& task::allows(after.unwrap().cpu_affinity, after.unwrap().cpu as int)
        }),
{
    lemma_balanced(view.tasks, task::clamped_cpus(online_cpus) as usize, 32, index);
}

proof fn lemma_balanced(tasks: Seq<Option<Task>>, online: usize, count: nat, index: int)
    requires
        tasks.len() == 32,
        count <= 32,
        1 <= online <= 8,
        0 <= index < 32,
        !task::balanced(tasks, online, count).failed,
    ensures
        ({
            let state = task::balanced(tasks, online, count);
            &&& state.tasks.len() == 32
            &&& index >= count ==> state.tasks[index] == tasks[index]
            &&& index < count && tasks[index] is Some ==> state.tasks[index] == Some(
                Task { cpu: state.tasks[index].unwrap().cpu, ..tasks[index].unwrap() },
            )
            &&& index < count && tasks[index] is Some && task::is_runnable(
                tasks[index].unwrap().state,
            ) ==> {
                let placed = state.tasks[index].unwrap();
                placed.cpu < online && task::allows(placed.cpu_affinity, placed.cpu as int)
            }
        }),
    decreases count,
{
    if count > 0 {
        let before = task::balanced(tasks, online, (count - 1) as nat);
        lemma_balanced(tasks, online, (count - 1) as nat, index);
        if index == count - 1 && tasks[index] is Some {
            let task = tasks[index].unwrap();
            let mask = task::online_mask(online);
            let allowed = task.cpu_affinity & mask;
            task::lemma_least_loaded(allowed, before.loads, 8);
            if allowed != 0 {
                task::lemma_cpu_mask(online as u64);
                task::lemma_lowest_bit(allowed);
                let lowest = u64_trailing_zeros(allowed) as u64;
                task::lemma_low_bits(task.cpu_affinity, mask, lowest);
                assert(task::allows(allowed, lowest as int));
                let target = task::least_loaded(allowed, before.loads, 8);
                lemma_allowed_online(task.cpu_affinity, online as u64, target as u64);
                if task.cpu < online && task::allows(allowed, task.cpu as int) {
                    lemma_allowed_online(task.cpu_affinity, online as u64, task.cpu as u64);
                }
            }
        }
    }
}

proof fn lemma_allowed_online(affinity: u64, online: u64, cpu: u64)
    by (bit_vector)
    requires
        1 <= online <= 8,
        cpu < 8,
        (affinity & ((1u64 << online) - 1) as u64) & (1u64 << cpu) != 0,
    ensures
        cpu < online,
        affinity & (1u64 << cpu) != 0,
{
}

/// A signal that is sent to a task with a handler for it is the next one delivered, if
/// nothing else was to be delivered and it is not blocked.
pub proof fn law_signals_are_delivered(view: TableView, pid: Pid, signal: u8)
    requires
        view.wf(),
        view.live(pid),
        task::signal_ok(signal),
        view.task(pid).unwrap().signal_actions[signal as int].handler != 0,
        view.init_pid != Some(pid) || (signal != task::SIGKILL && signal != task::SIGTERM),
        view.task(pid).unwrap().pending_signals & !view.task(pid).unwrap().signal_mask == 0,
        view.task(pid).unwrap().signal_mask & (1u64 << (signal as u64)) == 0,
    ensures
        task::signalled(view, pid, signal).1 is Ok,
        task::delivered(task::signalled(view, pid, signal).0, pid).1 matches Ok(frame)
            && frame.signum == signal && frame.handler
            == view.task(pid).unwrap().signal_actions[signal as int].handler,
{
    let task = view.task(pid).unwrap();
    let pending = task::with_pending(view, pid, signal);
    task::lemma_with_pending(view, pid, signal);
    task::lemma_slot(view.tasks, pid, 0);
    assert(view.tasks[view.slot(pid)] is Some);
    assert(view.task_ok(task));
    task::lemma_pending(task.pending_signals, signal as u64);
    let waiting = Task {
        pending_signals: task.pending_signals | (1u64 << (signal as u64)),
        ..task
    };
    task::lemma_replace(view, waiting);
    assert(pending.task(pid) == Some(waiting));
    task::lemma_replace(
        pending,
        Task { state: TaskState::Ready, wait_order: 0, ..waiting },
    );
    let after = task::signalled(view, pid, signal).0;
    assert(after.task(pid) is Some && after.task(pid).unwrap().pending_signals
        == waiting.pending_signals && after.task(pid).unwrap().signal_mask == task.signal_mask
        && after.task(pid).unwrap().signal_actions == task.signal_actions) by {
        let resumed = if task::interruptible(task.state) {
            pending.with_task(Task { state: TaskState::Ready, wait_order: 0, ..waiting })
        } else {
            pending
        };
        assert(after.tasks == resumed.tasks);
        assert(after.task(pid) == resumed.task(pid));
    }
    let deliverable = waiting.pending_signals & !task.signal_mask;
    lemma_only_signal(task.pending_signals, task.signal_mask, signal as u64);
    axiom_u64_trailing_zeros(deliverable);
    lemma_single_bit(signal as u64, u64_trailing_zeros(deliverable) as u64);
}

proof fn lemma_only_signal(pending: u64, mask: u64, signal: u64)
    by (bit_vector)
    requires
        signal <= 32,
        pending & !mask == 0,
        mask & (1u64 << signal) == 0,
    ensures
        (pending | (1u64 << signal)) & !mask == 1u64 << signal,
        1u64 << signal != 0,
{
}

proof fn lemma_single_bit(signal: u64, index: u64)
    by (bit_vector)
    requires
        signal <= 32,
        index < 64,
        ((1u64 << signal) >> index) & 1 == 1,
    ensures
        signal == index,
{
}

/// Rebalancing moves tasks to other processors and does nothing else.
pub proof fn law_rebalancing_only_moves(
    tasks: Seq<Option<Task>>,
    online: usize,
    count: nat,
    index: int,
)
    requires
        tasks.len() == 32,
        count <= 32,
        0 <= index < 32,
    ensures
        task::balanced(tasks, online, count).tasks.len() == 32,
        match task::balanced(tasks, online, count).tasks[index] {
            Some(moved) => tasks[index] matches Some(task) && moved == (Task {
                cpu: moved.cpu,
                ..task
            }),
            None => tasks[index] is None,
        },
    decreases count,
{
    if count > 0 {
        law_rebalancing_only_moves(tasks, online, (count - 1) as nat, index);
    }
}

/// A task that waits for a processor, or runs on it, and may use it.
pub open spec fn wants(task: Task, cpu: usize) -> bool {
    &&& task.state == TaskState::Ready || task.state == TaskState::Running
    &&& task.cpu == cpu
    &&& task.cpu_affinity & (1u64 << (cpu as u64)) != 0
}

/// The task that is picked for a processor wants it, and no other task that does comes
/// first: real-time tasks come before the others; among tasks of one class the higher
/// priority comes first, then the lower nice value, then the one that ran less, then the one
/// with the lower number. Where none is picked, no task wants the processor.
pub proof fn law_most_urgent_task_is_picked(
    view: TableView,
    cpu: usize,
    pid: Option<Pid>,
    other: Pid,
)
    requires
        view.wf(),
        cpu < 8,
        task::picked(view, cpu, pid),
    ensures
        pid matches Some(number) ==> view.task(number) matches Some(best) && wants(best, cpu)
            && best.pid == number,
        pid is None ==> !(view.task(other) matches Some(left) && wants(left, cpu)),
        view.task(other) matches Some(left) ==> wants(left, cpu) ==> {
            let best = view.task(pid.unwrap()).unwrap();
            let best_real = best.scheduling_policy != SchedulingPolicy::Normal;
            let left_real = left.scheduling_policy != SchedulingPolicy::Normal;
            &&& left_real ==> best_real
            &&& best_real == left_real ==> best.rt_priority >= left.rt_priority
            &&& best_real == left_real && best.rt_priority == left.rt_priority ==> best.nice
                <= left.nice
            &&& best_real == left_real && best.rt_priority == left.rt_priority && best.nice
                == left.nice ==> best.runtime_ticks <= left.runtime_ticks
            &&& best_real == left_real && best.rt_priority == left.rt_priority && best.nice
                == left.nice && best.runtime_ticks == left.runtime_ticks ==> best.pid <= left.pid
        },
{
    task::lemma_slot(view.tasks, other, 0);
    if let Some(number) = pid {
        task::lemma_slot(view.tasks, number, 0);
        if let Some(left) = view.task(other) {
            assert(view.tasks[view.slot(other)] == Some(left));
        }
    } else if let Some(left) = view.task(other) {
        assert(view.tasks[view.slot(other)] == Some(left));
    }
}

/// The tasks of a table but for one are as they were.
pub open spec fn others_kept(before: TableView, after: TableView, pid: Pid) -> bool {
    forall|other: Pid| other != pid ==> #[trigger] after.task(other) == before.task(other)
}

proof fn lemma_task_set(view: TableView, task: Task)
    requires
        view.wf(),
        view.task(task.pid) is Some,
    ensures
        view.with_task(task).task(task.pid) == Some(task),
        others_kept(view, view.with_task(task), task.pid),
{
    let after = view.with_task(task);
    let at = view.slot(task.pid);
    task::lemma_slot(view.tasks, task.pid, 0);
    task::lemma_slot(after.tasks, task.pid, 0);
    assert(after.tasks[at] == Some(task));
    assert(after.slot(task.pid) == at) by {
        let found = after.slot(task.pid);
        if found < at {
            assert(after.tasks[found] == view.tasks[found]);
        }
    }
    assert forall|other: Pid| other != task.pid implies #[trigger] after.task(other) == view.task(
        other,
    ) by {
        task::lemma_slot(view.tasks, other, 0);
        task::lemma_slot(after.tasks, other, 0);
        let was = view.slot(other);
        let now = after.slot(other);
        if was < 32 {
            assert(after.tasks[was] == view.tasks[was]);
        }
        if now < 32 {
            assert(after.tasks[now] == view.tasks[now]);
        }
        if was < now {
            assert(after.tasks[was] is Some && after.tasks[was].unwrap().pid == other);
        }
        if now < was {
            assert(view.tasks[now] is Some && view.tasks[now].unwrap().pid == other);
        }
    }
}

/// What the scheduler is told of a task it keeps, and of no other task anything changes: a
/// nice value from -20 to 19, a real-time priority from 1 to 99 or none for a task that is
/// not real-time, and the time that the task ran. All else is refused and changes nothing.
pub proof fn law_scheduling_is_kept(
    view: TableView,
    pid: Pid,
    nice: i8,
    policy: SchedulingPolicy,
    priority: u8,
)
    requires
        view.wf(),
        view.task(pid) is Some,
    ensures
        ({
            let (after, result) = task::nice_set(view, pid, nice);
            &&& result is Ok <==> -20 <= nice <= 19
            &&& result is Err ==> after == view && result == Err::<(), TaskError>(
                TaskError::InvalidNice,
            )
            &&& result is Ok ==> after.task(pid) == Some(
                Task { nice, ..view.task(pid).unwrap() },
            ) && others_kept(view, after, pid)
        }),
        ({
            let (after, result) = task::scheduler_set(view, pid, policy, priority);
            let urgent = policy == SchedulingPolicy::Fifo || policy == SchedulingPolicy::RoundRobin;
            &&& result is Ok <==> (if urgent {
                1 <= priority <= 99
            } else {
                priority == 0
            })
            &&& result is Err ==> after == view && result == Err::<(), TaskError>(
                TaskError::InvalidPriority,
            )
            &&& result is Ok ==> after.task(pid) == Some(
                Task {
                    scheduling_policy: policy,
                    rt_priority: priority,
                    ..view.task(pid).unwrap()
                },
            ) && others_kept(view, after, pid)
        }),
        ({
            let (after, result) = task::ticked(view, pid);
            let before = view.task(pid).unwrap();
            &&& result is Ok
            &&& after.task(pid) matches Some(now) && now == (Task {
                runtime_ticks: now.runtime_ticks,
                ..before
            }) && (before.runtime_ticks < u64::MAX ==> now.runtime_ticks == before.runtime_ticks
                + 1) && now.runtime_ticks >= before.runtime_ticks
            &&& others_kept(view, after, pid)
        }),
{
    task::lemma_slot(view.tasks, pid, 0);
    let before = view.task(pid).unwrap();
    lemma_task_set(view, Task { nice, ..before });
    lemma_task_set(
        view,
        Task { scheduling_policy: policy, rt_priority: priority, ..before },
    );
    lemma_task_set(
        view,
        Task {
            runtime_ticks: if before.runtime_ticks == u64::MAX {
                u64::MAX
            } else {
                (before.runtime_ticks + 1) as u64
            },
            ..before
        },
    );
}

/// Of two tasks that are not real-time and alone want a processor, the one that was given the
/// lower nice value is picked, whatever they were before.
pub proof fn law_nicer_tasks_wait(
    view: TableView,
    cpu: usize,
    first: Pid,
    second: Pid,
    low: i8,
    high: i8,
    pid: Option<Pid>,
)
    requires
        view.wf(),
        cpu < 8,
        first != second,
        -20 <= low < high <= 19,
        view.task(first) matches Some(task) && wants(task, cpu) && task.scheduling_policy
            == SchedulingPolicy::Normal && task.rt_priority == 0,
        view.task(second) matches Some(task) && wants(task, cpu) && task.scheduling_policy
            == SchedulingPolicy::Normal && task.rt_priority == 0,
        forall|other: Pid|
            other != first && other != second ==> !(#[trigger] view.task(other) matches Some(task)
                && wants(task, cpu)),
        task::nice_set(task::nice_set(view, first, low).0, second, high).0.wf(),
        task::picked(
            task::nice_set(task::nice_set(view, first, low).0, second, high).0,
            cpu,
            pid,
        ),
    ensures
        pid == Some(first),
{
    let one = task::nice_set(view, first, low).0;
    let two = task::nice_set(one, second, high).0;
    task::lemma_slot(view.tasks, first, 0);
    task::lemma_slot(view.tasks, second, 0);
    law_scheduling_is_kept(view, first, low, SchedulingPolicy::Normal, 0);
    let task_first = view.task(first).unwrap();
    task::lemma_replace(view, Task { nice: low, ..task_first });
    law_scheduling_is_kept(one, second, high, SchedulingPolicy::Normal, 0);
    law_most_urgent_task_is_picked(two, cpu, pid, first);
    assert(two.task(first) == one.task(first));
    if let Some(number) = pid {
        assert(wants(two.task(number).unwrap(), cpu));
        if number != first && number != second {
            assert(two.task(number) == one.task(number));
            assert(one.task(number) == view.task(number));
        }
    }
}

} // verus!
