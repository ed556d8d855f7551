//! A walk through the life of a few tasks.
use crate::kernel::task;
use crate::kernel::task::laws;
use crate::kernel::task::{
    Pid, SchedulingPolicy, SignalAction, TableView, Task, TaskError, TaskKind, TaskState,
    TaskTable, TimerPollResult, WaitError, CLONE_SIGHAND, CLONE_THREAD, CLONE_VM, SIGTERM, SIGUSR1,
};
use vstd::prelude::*;
use vstd::std_specs::bits::*;

verus! {

/// The task in a slot.
spec fn at(view: TableView, slot: int) -> Task {
    view.tasks[slot].unwrap()
}

/// The slots hold the tasks of these numbers, 0 standing for none, and the slots behind
/// them are free.
spec fn placed(view: TableView, pids: Seq<int>) -> bool {
    &&& view.wf()
    &&& view.init_pid == Some(1u32)
    &&& forall|i: int|
        0 <= i < 32 ==> (#[trigger] view.tasks[i] is Some <==> i < pids.len() && pids[i] != 0)
    &&& forall|i: int|
        0 <= i < 32 && #[trigger] view.tasks[i] is Some ==> view.tasks[i].unwrap().pid == pids[i]
}

spec fn no_timers(view: TableView) -> bool {
    forall|i: int| 0 <= i < 32 ==> #[trigger] view.timers[i] is None
}

/// A task stands in its slot, and a number without a slot is no task.
proof fn lemma_placed(view: TableView, pids: Seq<int>, pid: Pid, slot: int)
    requires
        placed(view, pids),
        pids.len() <= 32,
        0 <= slot < 32,
    ensures
        slot < pids.len() && pids[slot] == pid && pid != 0 ==> view.slot(pid) == slot && view.task(
            pid,
        ) == view.tasks[slot] && view.task_ok(at(view, slot)),
        (forall|i: int| 0 <= i < pids.len() ==> pids[i] != pid) ==> view.task(pid) is None,
{
    if slot < pids.len() && pids[slot] == pid && pid != 0 {
        assert(view.tasks[slot] is Some);
        task::lemma_slot_is(view, slot);
    }
    task::lemma_slot(view.tasks, pid, 0);
    if view.slot(pid) < 32 {
        assert(view.tasks[view.slot(pid)] is Some);
    }
}

/// The first free slot.
proof fn lemma_free_slot(view: TableView, pids: Seq<int>, slot: int)
    requires
        placed(view, pids),
        0 <= slot <= pids.len() <= 32,
        slot < 32,
        slot < pids.len() ==> pids[slot] == 0,
        forall|i: int| 0 <= i < slot ==> pids[i] != 0,
    ensures
        task::free_from(view.tasks, 0) == slot,
{
    task::lemma_free(view.tasks, 0);
    let found = task::free_from(view.tasks, 0);
    if found < slot {
        assert(view.tasks[found] is None);
    }
    assert(view.tasks[slot] is None);
}

proof fn lemma_clone_flags()
    by (bit_vector)
    ensures
        (0x100u64 | 0x800u64 | 0x1_0000u64) & 0x1_0000u64 != 0,
        (0x100u64 | 0x800u64 | 0x1_0000u64) & (0x100u64 | 0x800u64) == (0x100u64 | 0x800u64),
        0u64 & 0x1_0000u64 == 0,
{
}

/// The tasks after the first part: the first task, its child, an orphan that it adopted,
/// and a thread.
spec fn family(view: TableView) -> bool {
    &&& placed(view, seq![1, 2, 0, 4, 5])
    &&& view.next_pid == 6
    &&& view.next_timer_id < 100
    &&& view.next_wait_order < 100
    &&& at(view, 0).state == TaskState::Ready
    &&& at(view, 0).scheduling_policy == SchedulingPolicy::Normal
    &&& at(view, 0).signal_actions[15].handler == 0
    &&& at(view, 0).cpu_affinity == 0xff
    &&& at(view, 1).state == TaskState::Ready
    &&& at(view, 1).scheduling_policy == SchedulingPolicy::Normal
    &&& at(view, 1).parent == Some(1u32)
    &&& at(view, 1).signal_mask == 0
    &&& at(view, 3).state == TaskState::Ready
    &&& at(view, 3).scheduling_policy == SchedulingPolicy::Normal
    &&& at(view, 3).parent == Some(1u32)
    &&& at(view, 3).cpu_affinity == 0xff
    &&& at(view, 4).state == TaskState::Ready
    &&& at(view, 4).exit_signal is None
    &&& at(view, 4).parent == Some(2u32)
    &&& at(view, 4).signal_mask == 0
}

/// Starts the tasks.
fn start_family(tasks: &mut TaskTable) -> (passed: bool)
    requires
        old(tasks)@ == TableView::empty(),
    ensures
        passed,
        placed(final(tasks)@, seq![1, 2, 3, 4, 5]),
        final(tasks)@.next_pid == 6,
        final(tasks)@.next_timer_id == 1,
        final(tasks)@.next_wait_order == 1,
        no_timers(final(tasks)@),
        forall|i: int|
            0 <= i < 5 ==> (#[trigger] final(tasks)@.tasks[i]).unwrap().state == TaskState::Ready
                && final(tasks)@.tasks[i].unwrap().scheduling_policy == SchedulingPolicy::Normal
                && final(tasks)@.tasks[i].unwrap().signal_actions[15].handler == 0
                && final(tasks)@.tasks[i].unwrap().cpu_affinity == 0xff
                && final(tasks)@.tasks[i].unwrap().signal_mask == 0
                && final(tasks)@.tasks[i].unwrap().pending_signals == 0
                && final(tasks)@.tasks[i].unwrap().runtime_ticks == 0
                && final(tasks)@.tasks[i].unwrap().timer_expirations == 0
                && final(tasks)@.tasks[i].unwrap().cpu == 0,
        at(final(tasks)@, 1).parent == Some(1u32),
        at(final(tasks)@, 2).parent == Some(2u32),
        at(final(tasks)@, 3).parent == Some(3u32),
        at(final(tasks)@, 4).parent == Some(2u32),
        at(final(tasks)@, 2).exit_signal is Some,
        at(final(tasks)@, 3).exit_signal is Some,
        at(final(tasks)@, 4).exit_signal is None,
        at(final(tasks)@, 4).tgid == 2,
{
    proof {
        lemma_clone_flags();
        task::lemma_free(tasks@.tasks, 0);
        assert(tasks@.tasks[0] is None);
    }
    let init: Pid = match tasks.spawn(None, "init-test", TaskKind::Kernel) {
        Ok(pid) => pid,
        Err(_) => {
            return false;
        },
    };
    assert(placed(tasks@, seq![1]));
    proof {
        lemma_placed(tasks@, seq![1], 1, 0);
        lemma_free_slot(tasks@, seq![1], 1);
    }
    let parent: Pid = match tasks.spawn(Some(init), "parent-test", TaskKind::Shell) {
        Ok(pid) => pid,
        Err(_) => {
            return false;
        },
    };
    assert(placed(tasks@, seq![1, 2]));
    proof {
        lemma_placed(tasks@, seq![1, 2], 2, 1);
        lemma_free_slot(tasks@, seq![1, 2], 2);
    }
    let child: Pid = match tasks.spawn(Some(parent), "child-test", TaskKind::User) {
        Ok(pid) => pid,
        Err(_) => {
            return false;
        },
    };
    assert(placed(tasks@, seq![1, 2, 3]));
    proof {
        lemma_placed(tasks@, seq![1, 2, 3], 3, 2);
        lemma_free_slot(tasks@, seq![1, 2, 3], 3);
    }
    match tasks.spawn(Some(child), "orphan-test", TaskKind::User) {
        Ok(_) => {},
        Err(_) => {
            return false;
        },
    }
    assert(placed(tasks@, seq![1, 2, 3, 4]));
    proof {
        lemma_placed(tasks@, seq![1, 2, 3, 4], 2, 1);
        lemma_free_slot(tasks@, seq![1, 2, 3, 4], 4);
    }
    let thread: Pid = match tasks.clone_task(
        parent,
        "thread-test",
        CLONE_VM | CLONE_SIGHAND | CLONE_THREAD,
    ) {
        Ok(pid) => pid,
        Err(_) => {
            return false;
        },
    };
    assert(placed(tasks@, seq![1, 2, 3, 4, 5]));
    proof {
        lemma_placed(tasks@, seq![1, 2, 3, 4, 5], 5, 4);
    }
    match tasks.get_by_pid(thread) {
        Some(task) => task.tgid == parent && task.exit_signal.is_none(),
        None => false,
    }
}

/// Whether a task is in a state.
fn is_in(tasks: &TaskTable, pid: Pid, state: TaskState) -> (result: bool)
    requires
        tasks.wf(),
    ensures
        result <==> (tasks@.task(pid) matches Some(task) && task.state == state),
{
    match tasks.get_by_pid(pid) {
        Some(task) => task.state == state,
        None => false,
    }
}

/// Whether a task has this parent.
fn has_parent(tasks: &TaskTable, pid: Pid, parent: Pid) -> (result: bool)
    requires
        tasks.wf(),
    ensures
        result <==> (tasks@.task(pid) matches Some(task) && task.parent == Some(parent)),
{
    match tasks.get_by_pid(pid) {
        Some(task) => task.parent == Some(parent),
        None => false,
    }
}

/// The child exits and its parent waits for it.
fn end_child(tasks: &mut TaskTable) -> (passed: bool)
    requires
        placed(old(tasks)@, seq![1, 2, 3, 4, 5]),
        old(tasks)@.next_pid == 6,
        old(tasks)@.next_timer_id == 1,
        old(tasks)@.next_wait_order == 1,
        no_timers(old(tasks)@),
        forall|i: int|
            0 <= i < 5 ==> (#[trigger] old(tasks)@.tasks[i]).unwrap().state == TaskState::Ready
                && old(tasks)@.tasks[i].unwrap().scheduling_policy == SchedulingPolicy::Normal
                && old(tasks)@.tasks[i].unwrap().signal_actions[15].handler == 0
                && old(tasks)@.tasks[i].unwrap().cpu_affinity == 0xff
                && old(tasks)@.tasks[i].unwrap().signal_mask == 0
                && old(tasks)@.tasks[i].unwrap().pending_signals == 0
                && old(tasks)@.tasks[i].unwrap().runtime_ticks == 0
                && old(tasks)@.tasks[i].unwrap().timer_expirations == 0
                && old(tasks)@.tasks[i].unwrap().cpu == 0,
        at(old(tasks)@, 1).parent == Some(1u32),
        at(old(tasks)@, 2).parent == Some(2u32),
        at(old(tasks)@, 3).parent == Some(3u32),
        at(old(tasks)@, 4).parent == Some(2u32),
        at(old(tasks)@, 2).exit_signal is Some,
        at(old(tasks)@, 3).exit_signal is Some,
        at(old(tasks)@, 4).exit_signal is None,
    ensures
        passed,
        final(tasks)@.next_timer_id == old(tasks)@.next_timer_id,
        final(tasks)@.next_wait_order == old(tasks)@.next_wait_order,
        family(final(tasks)@),
        no_timers(final(tasks)@),
        at(final(tasks)@, 1).pending_signals == 0u64 | (1u64 << 17u64),
        at(final(tasks)@, 1).timer_expirations == 0,
        at(final(tasks)@, 1).cpu_affinity == 0xff,
        at(final(tasks)@, 1).cpu == 0,
        at(final(tasks)@, 4).runtime_ticks == 0,
        at(final(tasks)@, 4).cpu == 0,
{
    let (init, parent, child, grandchild): (Pid, Pid, Pid, Pid) = (1, 2, 3, 4);
    proof {
        lemma_placed(tasks@, seq![1, 2, 3, 4, 5], 2, 1);
        lemma_placed(tasks@, seq![1, 2, 3, 4, 5], 3, 2);
    }
    if tasks.execve(parent, "/bin/hello").is_err() {
        return false;
    }
    let ghost before = tasks@;
    proof {
        assert(placed(before, seq![1, 2, 3, 4, 5]));
        lemma_placed(before, seq![1, 2, 3, 4, 5], 1, 0);
        lemma_placed(before, seq![1, 2, 3, 4, 5], 2, 1);
        lemma_placed(before, seq![1, 2, 3, 4, 5], 3, 2);
        lemma_placed(before, seq![1, 2, 3, 4, 5], 4, 3);
        laws::law_exit_status_is_kept(before, 3, 7, 0);
        laws::lemma_announced(before, 3);
    }
    if tasks.exit(child, 7).is_err() {
        return false;
    }
    let ghost ended = tasks@;
    proof {
        let announced = task::exit_announced(before, 3);
        assert forall|i: int| 0 <= i < 32 implies (#[trigger] ended.tasks[i] is Some <==> i < 5) by {
            assert(announced.tasks[i] is Some <==> before.tasks[i] is Some);
        }
        assert(placed(ended, seq![1, 2, 3, 4, 5]));
        lemma_placed(ended, seq![1, 2, 3, 4, 5], 2, 1);
        lemma_placed(ended, seq![1, 2, 3, 4, 5], 3, 2);
        lemma_placed(ended, seq![1, 2, 3, 4, 5], 4, 3);
        assert(!task::leaves_zombie(before.tasks, 3));
        assert(at(ended, 1).pending_signals == 0u64 | (1u64 << 17u64)) by {
            task::lemma_adopted(before, 3);
            let orphaned = TableView {
                timers: task::timers_without(before.timers, 3),
                tasks: task::adopted(before.tasks, 3, 1),
                ..before
            };
            assert(orphaned.slot(2) == before.slot(2));
        }
        assert(ended.timers =~= before.timers);
    }
    if !is_in(tasks, child, TaskState::Zombie(7)) || !has_parent(tasks, grandchild, init) {
        return false;
    }
    proof {
        assert forall|i: int| 0 <= i < 32 implies !#[trigger] task::child_at(
            ended,
            2,
            Some(4u32),
            i,
        ) by {
            assert(ended.tasks[i] is Some <==> i < 5);
        }
        lemma_no_zombie(ended, 2, Some(4u32), 0);
    }
    match tasks.wait(parent, Some(grandchild)) {
        Err(WaitError::NoChild) => {},
        _ => {
            return false;
        },
    }
    match tasks.wait(parent, Some(child)) {
        Ok(reaped) => {
            if reaped.pid != child || reaped.status != 7 {
                return false;
            }
        },
        Err(_) => {
            return false;
        },
    }
    proof {
        laws::lemma_zombie_slot(ended, 2, 3, 2, 0);
        assert(tasks@.tasks =~= ended.tasks.update(2, None));
        assert(placed(tasks@, seq![1, 2, 0, 4, 5]));
        lemma_placed(tasks@, seq![1, 2, 0, 4, 5], 3, 2);
    }
    if tasks.get_by_pid(child).is_some() {
        return false;
    }
    match tasks.exit(init, 0) {
        Err(TaskError::InitCannotExit) => true,
        _ => false,
    }
}

/// Without a child that is waited for there is none that has exited.
proof fn lemma_no_zombie(view: TableView, parent: Pid, target: Option<Pid>, from: int)
    requires
        view.tasks.len() == 32,
        0 <= from <= 32,
        forall|i: int| 0 <= i < 32 ==> !#[trigger] task::child_at(view, parent, target, i),
    ensures
        task::zombie_slot(view, parent, target, from) == 32,
    decreases 32 - from,
{
    if from < 32 {
        assert(!task::child_at(view, parent, target, from));
        lemma_no_zombie(view, parent, target, from + 1);
    }
}

/// The lowest of the two signals.
proof fn lemma_lowest_signal()
    ensures
        u64_trailing_zeros(((0u64 | (1u64 << 17u64)) | (1u64 << 10u64)) & !0u64) == 10,
        ((0u64 | (1u64 << 17u64)) | (1u64 << 10u64)) & !0u64 != 0,
{
    let value = ((0u64 | (1u64 << 17u64)) | (1u64 << 10u64)) & !0u64;
    let index = u64_trailing_zeros(value) as u64;
    axiom_u64_trailing_zeros(value);
    lemma_signal_bits(index);
    if index > 10 {
        assert((value >> 10u64) & 1u64 == 0u64);
    }
}

proof fn lemma_signal_bits(index: u64)
    by (bit_vector)
    ensures
        ((0u64 | (1u64 << 17u64)) | (1u64 << 10u64)) & !0u64 != 0,
        ((((0u64 | (1u64 << 17u64)) | (1u64 << 10u64)) & !0u64) >> 10u64) & 1u64 == 1u64,
        index < 10 ==> ((((0u64 | (1u64 << 17u64)) | (1u64 << 10u64)) & !0u64) >> index) & 1u64
            == 0u64,
{
}

/// The parent gets a handler, a signal and a session of its own.
fn handle_signals(tasks: &mut TaskTable) -> (passed: bool)
    requires
        family(old(tasks)@),
        no_timers(old(tasks)@),
        at(old(tasks)@, 1).pending_signals == 0u64 | (1u64 << 17u64),
        at(old(tasks)@, 1).timer_expirations == 0,
        at(old(tasks)@, 1).cpu_affinity == 0xff,
        at(old(tasks)@, 1).cpu == 0,
        at(old(tasks)@, 4).runtime_ticks == 0,
        at(old(tasks)@, 4).cpu == 0,
    ensures
        passed,
        final(tasks)@.next_timer_id == old(tasks)@.next_timer_id,
        final(tasks)@.next_wait_order == old(tasks)@.next_wait_order,
        family(final(tasks)@),
        no_timers(final(tasks)@),
        at(final(tasks)@, 1).timer_expirations == 0,
        at(final(tasks)@, 1).cpu_affinity == 0xff,
        at(final(tasks)@, 1).cpu == 0,
        at(final(tasks)@, 4).runtime_ticks == 0,
        at(final(tasks)@, 4).cpu == 0,
{
    let parent: Pid = 2;
    let handler = SignalAction { handler: 0x401000, flags: 0, mask: 0 };
    let ghost pids: Seq<int> = seq![1, 2, 0, 4, 5];
    proof {
        lemma_placed(tasks@, pids, 2, 1);
    }
    if tasks.set_signal_action(parent, SIGUSR1, handler).is_err() {
        return false;
    }
    proof {
        assert(placed(tasks@, pids));
        lemma_placed(tasks@, pids, 2, 1);
    }
    if tasks.send_signal(parent, SIGUSR1).is_err() {
        return false;
    }
    proof {
        assert(placed(tasks@, pids));
        lemma_placed(tasks@, pids, 2, 1);
        lemma_lowest_signal();
    }
    match tasks.deliver_signal(parent) {
        Ok(frame) => {
            if frame.signum != SIGUSR1 {
                return false;
            }
        },
        Err(_) => {
            return false;
        },
    }
    proof {
        assert(placed(tasks@, pids));
        lemma_placed(tasks@, pids, 2, 1);
    }
    if tasks.set_process_group(parent, 0).is_err() {
        return false;
    }
    proof {
        assert(placed(tasks@, pids));
        lemma_placed(tasks@, pids, 2, 1);
    }
    match tasks.setsid(parent) {
        Ok(sid) => sid == parent,
        Err(_) => false,
    }
}

/// The masks of two processors.
proof fn lemma_two_cpus()
    ensures
        task::online_mask(2) == 3,
        3u64 & 3u64 == 3,
        2u64 & 3u64 == 2,
        0xffu64 & 3u64 == 3,
        task::allows(3, 0),
        !task::allows(2, 0),
        task::allows(2, 1),
        u64_trailing_zeros(2) == 1,
{
    let index = u64_trailing_zeros(2) as u64;
    axiom_u64_trailing_zeros(2);
    lemma_two_bits();
    if index > 1 {
        assert((2u64 >> 1u64) & 1u64 == 0u64);
    }
}

proof fn lemma_two_bits()
    by (bit_vector)
    ensures
        1u64 << 2u64 == 4,
        3u64 & 3u64 == 3,
        2u64 & 3u64 == 2,
        0xffu64 & 3u64 == 3,
        3u64 & (1u64 << 0u64) != 0,
        2u64 & (1u64 << 0u64) == 0,
        2u64 & (1u64 << 1u64) != 0,
        (2u64 >> 1u64) & 1u64 == 1u64,
        (2u64 >> 0u64) & 1u64 == 0u64,
{
}

/// With a processor for each runnable task a rebalancing does not fail.
proof fn lemma_balance_succeeds(tasks: Seq<Option<Task>>, online: usize, count: nat)
    requires
        tasks.len() == 32,
        count <= 32,
        forall|i: int|
            0 <= i < 32 && #[trigger] tasks[i] is Some ==> tasks[i].unwrap().cpu_affinity
                & task::online_mask(online) != 0,
    ensures
        !task::balanced(tasks, online, count).failed,
        task::balanced(tasks, online, count).tasks.len() == 32,
        forall|i: int|
            count <= i < 32 ==> #[trigger] task::balanced(tasks, online, count).tasks[i]
                == tasks[i],
        forall|i: int|
            0 <= i < 32 ==> (#[trigger] task::balanced(tasks, online, count).tasks[i] is Some
                <==> tasks[i] is Some),
        forall|i: int|
            0 <= i < 32 && (#[trigger] task::balanced(tasks, online, count).tasks[i]) is Some
                ==> task::balanced(tasks, online, count).tasks[i] == Some(
                Task {
                    cpu: task::balanced(tasks, online, count).tasks[i].unwrap().cpu,
                    ..tasks[i].unwrap()
                },
            ),
    decreases count,
{
    if count > 0 {
        lemma_balance_succeeds(tasks, online, (count - 1) as nat);
        assert(task::balanced(tasks, online, (count - 1) as nat).tasks[count - 1] == tasks[count
            - 1]);
    }
}

/// The tasks are placed on two processors, and the real-time thread runs first.
fn schedule(tasks: &mut TaskTable) -> (passed: bool)
    requires
        family(old(tasks)@),
        no_timers(old(tasks)@),
        at(old(tasks)@, 1).timer_expirations == 0,
        at(old(tasks)@, 1).cpu_affinity == 0xff,
        at(old(tasks)@, 1).cpu == 0,
        at(old(tasks)@, 4).runtime_ticks == 0,
        at(old(tasks)@, 4).cpu == 0,
    ensures
        passed,
        final(tasks)@.next_timer_id == old(tasks)@.next_timer_id,
        final(tasks)@.next_wait_order == old(tasks)@.next_wait_order,
        family(final(tasks)@),
        no_timers(final(tasks)@),
        at(final(tasks)@, 1).timer_expirations == 0,
{
    let (parent, thread): (Pid, Pid) = (2, 5);
    let ghost pids: Seq<int> = seq![1, 2, 0, 4, 5];
    proof {
        lemma_two_cpus();
        lemma_placed(tasks@, pids, 2, 1);
    }
    if tasks.set_nice(parent, -5).is_err() {
        return false;
    }
    proof {
        assert(placed(tasks@, pids));
        lemma_placed(tasks@, pids, 5, 4);
    }
    if tasks.set_scheduler(thread, SchedulingPolicy::RoundRobin, 20).is_err() {
        return false;
    }
    proof {
        assert(placed(tasks@, pids));
        lemma_placed(tasks@, pids, 2, 1);
    }
    match tasks.set_affinity(parent, 0b11, 2) {
        Ok(mask) => {
            if mask != 0b11 {
                return false;
            }
        },
        Err(_) => {
            return false;
        },
    }
    proof {
        assert(placed(tasks@, pids));
        lemma_placed(tasks@, pids, 5, 4);
    }
    match tasks.set_affinity(thread, 0b10, 2) {
        Ok(mask) => {
            if mask != 0b10 {
                return false;
            }
        },
        Err(_) => {
            return false;
        },
    }
    let ghost before = tasks@;
    proof {
        assert(placed(before, pids));
        assert forall|i: int|
            0 <= i < 32 && #[trigger] before.tasks[i] is Some implies before.tasks[i].unwrap().cpu_affinity
            & task::online_mask(2) != 0 by {
            assert(i == 0 || i == 1 || i == 3 || i == 4);
        }
        lemma_balance_succeeds(before.tasks, 2, 32);
        laws::law_rebalancing_places_tasks(before, 2, 4);
    }
    if tasks.rebalance(2).is_err() {
        return false;
    }
    let ghost after = tasks@;
    proof {
        assert(after.tasks[4] is Some);
        assert(at(after, 4).cpu == 1);
        assert forall|i: int| 0 <= i < 32 implies (#[trigger] after.tasks[i] is Some
            <==> before.tasks[i] is Some) by {}
        assert(placed(after, pids));
        lemma_placed(after, pids, 5, 4);
        assert(task::eligible(at(after, 4), 1));
    }
    match tasks.pick_next(1) {
        Some(pid) => {
            proof {
                task::lemma_slot(after.tasks, pid, 0);
                let slot = after.slot(pid);
                assert(after.tasks[slot] is Some);
                assert(slot == 0 || slot == 1 || slot == 3 || slot == 4);
            }
            if pid != thread {
                return false;
            }
        },
        None => {
            return false;
        },
    }
    if tasks.account_tick(thread).is_err() {
        return false;
    }
    proof {
        assert(placed(tasks@, pids));
        lemma_placed(tasks@, pids, 5, 4);
    }
    match tasks.get_by_pid(thread) {
        Some(task) => task.runtime_ticks == 1,
        None => false,
    }
}

/// Of the tasks that wait in a state the thread is the first, if it waits and the
/// parent does not wait longer.
proof fn lemma_thread_first(view: TableView, state: TaskState)
    requires
        placed(view, seq![1, 2, 0, 4, 5]),
        at(view, 0).state != state,
        at(view, 3).state != state,
    ensures
        at(view, 4).state == state && (at(view, 1).state != state || at(view, 4).wait_order < at(
            view,
            1,
        ).wait_order) ==> task::first_waiter(view.tasks, state, 32) == 4,
        at(view, 4).state != state && at(view, 1).state == state ==> task::first_waiter(
            view.tasks,
            state,
            32,
        ) == 1,
{
    task::lemma_first_waiter(view.tasks, state, 32);
    let first = task::first_waiter(view.tasks, state, 32);
    if first >= 0 {
        assert(view.tasks[first] is Some);
        assert(first == 0 || first == 1 || first == 3 || first == 4);
    }
    if at(view, 4).state == state {
        assert(view.tasks[4] is Some);
        assert(task::waits(view.tasks, 4, state));
    }
    if at(view, 1).state == state {
        assert(view.tasks[1] is Some);
        assert(task::waits(view.tasks, 1, state));
    }
}

/// Waking one task.
proof fn lemma_wake_one(view: TableView, state: TaskState)
    requires
        task::first_waiter(view.tasks, state, 32) >= 0,
    ensures
        task::woken(view.tasks, state, 1) == (
            task::readied(view.tasks, task::first_waiter(view.tasks, state, 32)),
            1nat,
        ),
{
    reveal_with_fuel(task::woken, 2);
}

/// The thread waits on a word and both wait in a queue.
fn wait_in_queues(tasks: &mut TaskTable) -> (passed: bool)
    requires
        family(old(tasks)@),
        no_timers(old(tasks)@),
        old(tasks)@.next_wait_order < 10,
        at(old(tasks)@, 1).timer_expirations == 0,
    ensures
        passed,
        final(tasks)@.next_timer_id == old(tasks)@.next_timer_id,
        family(final(tasks)@),
        no_timers(final(tasks)@),
        at(final(tasks)@, 1).timer_expirations == 0,
{
    let (parent, thread): (Pid, Pid) = (2, 5);
    let ghost pids: Seq<int> = seq![1, 2, 0, 4, 5];
    proof {
        lemma_placed(tasks@, pids, 5, 4);
    }
    if tasks.futex_wait(thread, 0x1000, 7, 7).is_err() {
        return false;
    }
    proof {
        assert(placed(tasks@, pids));
        lemma_thread_first(tasks@, TaskState::FutexWait(0x1000));
        lemma_wake_one(tasks@, TaskState::FutexWait(0x1000));
    }
    match tasks.futex_wake(0x1000, 1) {
        Ok(count) => {
            if count != 1 {
                return false;
            }
        },
        Err(_) => {
            return false;
        },
    }
    proof {
        assert(placed(tasks@, pids));
        lemma_placed(tasks@, pids, 5, 4);
        lemma_placed(tasks@, pids, 2, 1);
    }
    if !is_in(tasks, thread, TaskState::Ready) {
        return false;
    }
    match tasks.futex_wait(thread, 0x1000, 8, 7) {
        Err(TaskError::FutexValueChanged) => {},
        _ => {
            return false;
        },
    }
    if tasks.wait_queue_wait(thread, 0x44).is_err() {
        return false;
    }
    proof {
        assert(placed(tasks@, pids));
        lemma_placed(tasks@, pids, 2, 1);
    }
    if tasks.wait_queue_wait(parent, 0x44).is_err() {
        return false;
    }
    proof {
        assert(placed(tasks@, pids));
        lemma_placed(tasks@, pids, 5, 4);
    }
    match tasks.wait_queue_wait(thread, 0x45) {
        Err(TaskError::TaskNotRunnable) => {},
        _ => {
            return false;
        },
    }
    proof {
        lemma_thread_first(tasks@, TaskState::WaitQueue(0x44));
        lemma_wake_one(tasks@, TaskState::WaitQueue(0x44));
    }
    match tasks.wait_queue_wake(0x44, 1) {
        Ok(count) => {
            if count != 1 {
                return false;
            }
        },
        Err(_) => {
            return false;
        },
    }
    proof {
        assert(placed(tasks@, pids));
        lemma_placed(tasks@, pids, 5, 4);
        lemma_placed(tasks@, pids, 2, 1);
        lemma_thread_first(tasks@, TaskState::WaitQueue(0x44));
        lemma_wake_one(tasks@, TaskState::WaitQueue(0x44));
    }
    if !is_in(tasks, thread, TaskState::Ready) || !is_in(
        tasks,
        parent,
        TaskState::WaitQueue(0x44),
    ) {
        return false;
    }
    match tasks.wait_queue_wake(0x44, 1) {
        Ok(count) => {
            assert(placed(tasks@, pids));
            count == 1
        },
        Err(_) => false,
    }
}

/// Only the first timer is set.
spec fn one_timer(view: TableView) -> bool {
    view.timers[0] is Some && forall|i: int| 1 <= i < 32 ==> #[trigger] view.timers[i] is None
}

/// Free timer slots behind the looked at change nothing.
proof fn lemma_polled_rest(view: TableView, now_ns: u64, from: nat, to: nat)
    requires
        view.wf(),
        from <= to <= 32,
        forall|i: int| from <= i < 32 ==> #[trigger] view.timers[i] is None,
    ensures
        task::polled(view, now_ns, to) == task::polled(view, now_ns, from),
    decreases to - from,
{
    if from < to {
        lemma_polled_rest(view, now_ns, from, (to - 1) as nat);
        laws::lemma_polled(view, now_ns, (to - 1) as nat);
        assert(task::polled(view, now_ns, (to - 1) as nat).0.timers[to - 1] == view.timers[to - 1]);
    }
}

/// With one timer set, looking at the timers is looking at it.
proof fn lemma_polled_one(view: TableView, now_ns: u64)
    requires
        view.wf(),
        one_timer(view),
    ensures
        task::polled(view, now_ns, 32) == task::polled_slot(
            view,
            TimerPollResult { expirations: 0, woken: 0, rearmed: 0 },
            now_ns,
            0,
        ),
{
    lemma_polled_rest(view, now_ns, 1, 32);
    reveal_with_fuel(task::polled, 2);
}

proof fn lemma_earliest(timers: Seq<Option<task::KernelTimer>>, count: nat)
    requires
        1 <= count <= timers.len(),
        timers[0] is Some,
        forall|i: int| 1 <= i < timers.len() ==> #[trigger] timers[i] is None,
    ensures
        task::earliest(timers, count) == Some(timers[0].unwrap().deadline_ns),
    decreases count,
{
    reveal_with_fuel(task::earliest, 2);
    if count > 1 {
        lemma_earliest(timers, (count - 1) as nat);
    }
}

proof fn lemma_no_timers(timers: Seq<Option<task::KernelTimer>>, count: nat)
    requires
        count <= timers.len(),
        forall|i: int| 0 <= i < timers.len() ==> #[trigger] timers[i] is None,
    ensures
        task::used(timers, count) == 0,
    decreases count,
{
    if count > 0 {
        lemma_no_timers(timers, (count - 1) as nat);
    }
}

/// The first timer slot is free.
proof fn lemma_first_timer(view: TableView)
    requires
        view.wf(),
        no_timers(view),
    ensures
        task::free_from(view.timers, 0) == 0,
{
    assert(view.timers[0] is None);
}

fn same(result: TimerPollResult, expirations: usize, woken: usize, rearmed: usize) -> (equal: bool)
    ensures
        equal <==> result == (TimerPollResult { expirations, woken, rearmed }),
{
    result.expirations == expirations && result.woken == woken && result.rearmed == rearmed
}

/// The thread sleeps until its time has come.
fn sleep(tasks: &mut TaskTable) -> (passed: bool)
    requires
        family(old(tasks)@),
        no_timers(old(tasks)@),
        old(tasks)@.next_timer_id < 10,
        at(old(tasks)@, 1).timer_expirations == 0,
    ensures
        passed,
        final(tasks)@.next_timer_id == old(tasks)@.next_timer_id + 1,
        family(final(tasks)@),
        no_timers(final(tasks)@),
        at(final(tasks)@, 1).timer_expirations == 0,
{
    let (parent, thread): (Pid, Pid) = (2, 5);
    let ghost pids: Seq<int> = seq![1, 2, 0, 4, 5];
    proof {
        lemma_placed(tasks@, pids, 5, 4);
        lemma_first_timer(tasks@);
    }
    if tasks.sleep_for(thread, 1_000, 500).is_err() {
        return false;
    }
    proof {
        assert(placed(tasks@, pids));
        lemma_placed(tasks@, pids, 5, 4);
        assert(one_timer(tasks@));
    }
    match tasks.sleep_for(thread, 1_000, 500) {
        Err(TaskError::TaskNotRunnable) => {},
        _ => {
            return false;
        },
    }
    proof {
        lemma_earliest(tasks@.timers, 32);
        lemma_polled_one(tasks@, 1_499);
    }
    match tasks.next_timer_deadline() {
        Some(deadline) => {
            if deadline != 1_500 {
                return false;
            }
        },
        None => {
            return false;
        },
    }
    if !same(tasks.poll_timers(1_499), 0, 0, 0) {
        return false;
    }
    proof {
        lemma_polled_one(tasks@, 1_500);
    }
    if !same(tasks.poll_timers(1_500), 1, 1, 0) {
        return false;
    }
    proof {
        assert(placed(tasks@, pids));
        lemma_placed(tasks@, pids, 5, 4);
    }
    is_in(tasks, thread, TaskState::Ready)
}

/// The parent uses a periodic timer, and a signal ends the sleep of the thread.
fn use_timers(tasks: &mut TaskTable) -> (passed: bool)
    requires
        family(old(tasks)@),
        no_timers(old(tasks)@),
        old(tasks)@.next_timer_id < 20,
        at(old(tasks)@, 1).timer_expirations == 0,
    ensures
        passed,
        family(final(tasks)@),
        no_timers(final(tasks)@),
{
    let (parent, thread): (Pid, Pid) = (2, 5);
    let ghost pids: Seq<int> = seq![1, 2, 0, 4, 5];
    proof {
        lemma_placed(tasks@, pids, 2, 1);
        lemma_first_timer(tasks@);
    }
    let periodic: u32 = match tasks.arm_timer(parent, 2_000, 100, 50) {
        Ok(id) => id,
        Err(_) => {
            return false;
        },
    };
    proof {
        assert(placed(tasks@, pids));
        lemma_placed(tasks@, pids, 2, 1);
        assert(one_timer(tasks@));
        lemma_polled_one(tasks@, 2_100);
    }
    if !same(tasks.poll_timers(2_100), 1, 0, 1) {
        return false;
    }
    proof {
        assert(placed(tasks@, pids));
        lemma_placed(tasks@, pids, 2, 1);
        assert(one_timer(tasks@));
        lemma_polled_one(tasks@, 2_260);
        let timer = tasks@.timers[0].unwrap();
        assert(timer.deadline_ns == 2_150 && timer.interval_ns == 50);
        assert(task::periods(timer, 2_260) == 3) by {
            assert(110int / 50int == 2);
        }
        assert(timer.interval_ns * 3 == 150) by (nonlinear_arith)
            requires
                timer.interval_ns == 50,
        ;
    }
    if !has_expirations(tasks, parent, 1) {
        return false;
    }
    if !same(tasks.poll_timers(2_260), 3, 0, 1) {
        return false;
    }
    proof {
        assert(placed(tasks@, pids));
        lemma_placed(tasks@, pids, 2, 1);
    }
    if !has_expirations(tasks, parent, 4) {
        return false;
    }
    if tasks.cancel_timer(parent, periodic).is_err() {
        return false;
    }
    proof {
        assert(placed(tasks@, pids));
        assert(no_timers(tasks@));
        lemma_no_timers(tasks@.timers, 32);
        lemma_placed(tasks@, pids, 5, 4);
        lemma_first_timer(tasks@);
    }
    if tasks.timer_count() != 0 {
        return false;
    }
    if tasks.sleep_for(thread, 3_000, 100).is_err() {
        return false;
    }
    proof {
        assert(placed(tasks@, pids));
        lemma_placed(tasks@, pids, 5, 4);
        task::lemma_with_pending(tasks@, 5, SIGUSR1);
        assert(task::with_pending(tasks@, 5, SIGUSR1).slot(5) == 4);
    }
    if tasks.send_signal(thread, SIGUSR1).is_err() {
        return false;
    }
    proof {
        assert(placed(tasks@, pids));
        lemma_placed(tasks@, pids, 5, 4);
        assert(no_timers(tasks@));
        lemma_no_timers(tasks@.timers, 32);
    }
    is_in(tasks, thread, TaskState::Ready) && tasks.timer_count() == 0
}

/// Whether a task has been told of so many expirations.
fn has_expirations(tasks: &TaskTable, pid: Pid, count: u32) -> (result: bool)
    requires
        tasks.wf(),
    ensures
        result <==> (tasks@.task(pid) matches Some(task) && task.timer_expirations == count),
{
    match tasks.get_by_pid(pid) {
        Some(task) => task.timer_expirations == count,
        None => false,
    }
}

/// A signal ends a parent, the first task adopts its child, and numbers are not used
/// again.
fn end_by_signal(tasks: &mut TaskTable) -> (passed: bool)
    requires
        family(old(tasks)@),
    ensures
        passed,
{
    let (init, thread): (Pid, Pid) = (1, 5);
    proof {
        lemma_clone_flags();
        lemma_placed(tasks@, seq![1, 2, 0, 4, 5], 1, 0);
        lemma_free_slot(tasks@, seq![1, 2, 0, 4, 5], 2);
    }
    let signal_parent: Pid = match tasks.spawn(Some(init), "signal-parent", TaskKind::User) {
        Ok(pid) => pid,
        Err(_) => {
            return false;
        },
    };
    proof {
        assert(placed(tasks@, seq![1, 2, 6, 4, 5]));
        lemma_placed(tasks@, seq![1, 2, 6, 4, 5], 6, 2);
        lemma_free_slot(tasks@, seq![1, 2, 6, 4, 5], 5);
    }
    let signal_child: Pid = match tasks.spawn(
        Some(signal_parent),
        "signal-child",
        TaskKind::User,
    ) {
        Ok(pid) => pid,
        Err(_) => {
            return false;
        },
    };
    let ghost started = tasks@;
    let ghost pids: Seq<int> = seq![1, 2, 6, 4, 5, 7];
    let ghost pending = task::with_pending(started, 6, SIGTERM);
    proof {
        assert(placed(started, pids));
        lemma_placed(started, pids, 6, 2);
        lemma_placed(started, pids, 7, 5);
        task::lemma_with_pending(started, 6, SIGTERM);
        assert forall|i: int| 0 <= i < 32 implies (#[trigger] pending.tasks[i] is Some
            <==> started.tasks[i] is Some) by {}
        assert(placed(pending, pids));
        lemma_placed(pending, pids, 6, 2);
        lemma_placed(pending, pids, 7, 5);
        laws::law_exit_status_is_kept(pending, 6, 143, 0);
        laws::law_first_task_adopts_orphans(pending, 6, 143, 7);
        laws::lemma_announced(pending, 6);
    }
    if tasks.send_signal(signal_parent, SIGTERM).is_err() {
        return false;
    }
    let ghost ended = tasks@;
    proof {
        assert(ended == task::exited(pending, 6, 143).0);
        let announced = task::exit_announced(pending, 6);
        assert forall|i: int| 0 <= i < 32 implies (#[trigger] ended.tasks[i] is Some <==> i < 6) by {
            assert(announced.tasks[i] is Some <==> pending.tasks[i] is Some);
        }
        assert(placed(ended, pids));
        lemma_placed(ended, pids, 6, 2);
        lemma_placed(ended, pids, 7, 5);
        laws::lemma_zombie_slot(ended, 1, 6, 2, 0);
    }
    if !is_in(tasks, signal_parent, TaskState::Zombie(128 + SIGTERM as i32)) || !has_parent(
        tasks,
        signal_child,
        init,
    ) {
        return false;
    }
    match tasks.wait(init, Some(signal_parent)) {
        Ok(reaped) => {
            if reaped.status != 128 + SIGTERM as i32 {
                return false;
            }
        },
        Err(_) => {
            return false;
        },
    }
    end_rest(tasks, signal_child)
}

/// The last child and the thread exit.
fn end_rest(tasks: &mut TaskTable, signal_child: Pid) -> (passed: bool)
    requires
        placed(old(tasks)@, seq![1, 2, 0, 4, 5, 7]),
        old(tasks)@.next_pid == 8,
        signal_child == 7,
        at(old(tasks)@, 0).state == TaskState::Ready,
        at(old(tasks)@, 1).state == TaskState::Ready,
        at(old(tasks)@, 3).state == TaskState::Ready,
        at(old(tasks)@, 4).state == TaskState::Ready,
        at(old(tasks)@, 4).exit_signal is None,
        at(old(tasks)@, 5).state == TaskState::Ready,
        at(old(tasks)@, 5).exit_signal is Some,
        at(old(tasks)@, 5).parent == Some(1u32),
    ensures
        passed,
{
    let (init, thread): (Pid, Pid) = (1, 5);
    let ghost before = tasks@;
    let ghost pids: Seq<int> = seq![1, 2, 0, 4, 5, 7];
    proof {
        lemma_placed(before, pids, 7, 5);
        laws::law_exit_status_is_kept(before, 7, 0, 0);
        laws::lemma_announced(before, 7);
    }
    if tasks.exit(signal_child, 0).is_err() {
        return false;
    }
    let ghost ended = tasks@;
    proof {
        let announced = task::exit_announced(before, 7);
        assert forall|i: int| 0 <= i < 32 implies (#[trigger] ended.tasks[i] is Some
            <==> before.tasks[i] is Some) by {
            assert(announced.tasks[i] is Some <==> before.tasks[i] is Some);
        }
        assert(placed(ended, pids));
        laws::lemma_zombie_slot(ended, 1, 7, 5, 0);
    }
    if tasks.wait(init, Some(signal_child)).is_err() {
        return false;
    }
    let ghost reaped = tasks@;
    proof {
        assert(placed(reaped, seq![1, 2, 0, 4, 5]));
        lemma_placed(reaped, seq![1, 2, 0, 4, 5], 5, 4);
        laws::lemma_announced(reaped, 5);
    }
    if tasks.exit(thread, 0).is_err() {
        return false;
    }
    proof {
        let announced = task::exit_announced(reaped, 5);
        assert forall|i: int| 0 <= i < 32 implies (#[trigger] tasks@.tasks[i] is Some
            <==> reaped.tasks[i] is Some && i != 4) by {
            assert(announced.tasks[i] is Some <==> reaped.tasks[i] is Some);
        }
        assert(placed(tasks@, seq![1, 2, 0, 4]));
        lemma_placed(tasks@, seq![1, 2, 0, 4], 5, 4);
        lemma_placed(tasks@, seq![1, 2, 0, 4], 1, 0);
        lemma_free_slot(tasks@, seq![1, 2, 0, 4], 2);
    }
    if tasks.get_by_pid(thread).is_some() {
        return false;
    }
    let reused_slot_pid: Pid = match tasks.spawn(Some(init), "slot-test", TaskKind::User) {
        Ok(pid) => pid,
        Err(_) => {
            return false;
        },
    };
    proof {
        assert(placed(tasks@, seq![1, 2, 8, 4]));
        assert forall|i: int| 0 <= i < 32 && #[trigger] tasks@.tasks[i] is Some implies !task::is_zombie(
            tasks@.tasks[i].unwrap().state,
        ) by {
            assert(i == 0 || i == 1 || i == 2 || i == 3);
        }
        lemma_counts(tasks@.tasks, 32);
    }
    reused_slot_pid > signal_child && tasks.active_count() == 4 && tasks.zombie_count() == 0
}

/// Four slots are in use and no task has exited.
proof fn lemma_counts(tasks: Seq<Option<Task>>, count: nat)
    requires
        4 <= count <= tasks.len(),
        forall|i: int| 0 <= i < tasks.len() ==> (#[trigger] tasks[i] is Some <==> i < 4),
        forall|i: int|
            0 <= i < tasks.len() && #[trigger] tasks[i] is Some ==> !task::is_zombie(
                tasks[i].unwrap().state,
            ),
    ensures
        task::used(tasks, count) == 4,
        task::zombies(tasks, count) == 0,
    decreases count,
{
    if count > 4 {
        lemma_counts(tasks, (count - 1) as nat);
        assert(tasks[count - 1] is None);
    } else {
        reveal_with_fuel(task::used, 5);
        reveal_with_fuel(task::zombies, 5);
        assert(tasks[0] is Some && tasks[1] is Some && tasks[2] is Some && tasks[3] is Some);
    }
}

/// Runs a few tasks through their lives on a table of their own and says whether all of
/// it went as it should.
pub fn lifecycle_self_test() -> (passed: bool)
    ensures
        passed,
{
    let mut tasks = TaskTable::new();
    tasks.reset();
    start_family(&mut tasks) && end_child(&mut tasks) && handle_signals(&mut tasks) && schedule(
        &mut tasks,
    ) && wait_in_queues(&mut tasks) && sleep(&mut tasks) && use_timers(&mut tasks)
        && end_by_signal(&mut tasks)
}

} // verus!
