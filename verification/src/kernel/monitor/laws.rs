//! What holds of the monitor as a whole.
use crate::ipc;
use crate::ipc::{CapabilityId, IpcError, IpcRights, IpcView, Message, RequestKind};
use crate::kernel::monitor;
use crate::kernel::monitor::boot;
use crate::kernel::monitor::commands;
use crate::kernel::monitor::demos;
use crate::kernel::monitor::report;
use crate::kernel::monitor::shell;
use crate::kernel::monitor::{KernelView, Machine, Service};
use crate::kernel::task;
use crate::kernel::task::{Pid, Task, TableView, TaskKind, TaskState};
use vstd::prelude::*;

verus! {

/// A table with the first `count` tasks, of which the first lives.
spec fn young(tasks: TableView, count: int) -> bool {
    &&& tasks.next_pid == count + 1
    &&& tasks.init_pid == Some(1u32)
    &&& tasks.tasks.len() == 32
    &&& forall|i: int|
        0 <= i < count ==> (#[trigger] tasks.tasks[i] matches Some(task) && task.pid == i + 1)
    &&& forall|i: int| count <= i < 32 ==> #[trigger] tasks.tasks[i] is None
    &&& tasks.tasks[0] matches Some(task) && !task::is_zombie(task.state)
}

/// Messages with the first `count` endpoints and capabilities.
spec fn sparse(table: IpcView, count: int) -> bool {
    &&& table.endpoints.len() == 8
    &&& table.capabilities.len() == 64
    &&& forall|i: int| 0 <= i < count ==> (#[trigger] table.endpoints[i]).entry is Some
    &&& forall|i: int| 0 <= i < count ==> (#[trigger] table.capabilities[i]).entry is Some
    &&& forall|i: int|
        count <= i < 8 ==> (#[trigger] table.endpoints[i]).entry is None
            && table.endpoints[i].generation == 0
    &&& forall|i: int|
        count <= i < 64 ==> (#[trigger] table.capabilities[i]).entry is None
            && table.capabilities[i].generation == 0
}

proof fn lemma_free_slot(tasks: TableView, count: int, from: int)
    requires
        young(tasks, count),
        0 <= from <= count < 32,
    ensures
        task::free_from(tasks.tasks, from) == count,
    decreases count - from,
{
    if from < count {
        assert(tasks.tasks[from] is Some);
        lemma_free_slot(tasks, count, from + 1);
    } else {
        assert(tasks.tasks[count] is None);
    }
}

proof fn lemma_usable_slot<T>(slots: Seq<ipc::Slot<T>>, count: int, from: int)
    requires
        0 <= from <= count < slots.len(),
        forall|i: int| 0 <= i < count ==> (#[trigger] slots[i]).entry is Some,
        slots[count].entry is None,
        slots[count].generation == 0,
    ensures
        ipc::usable_from(slots, from) == count,
    decreases count - from,
{
    if from < count {
        assert(slots[from].entry is Some);
        lemma_usable_slot(slots, count, from + 1);
    }
}

proof fn lemma_spread_young(view: KernelView, count: int)
    requires
        young(view.tasks, count),
        1 <= count < 32,
    ensures
        young(monitor::spread(view).0.tasks, count),
        monitor::spread(view).0 == view.with_tasks(monitor::spread(view).0.tasks),
{
    reveal(monitor::spread);
    let online = task::clamped_cpus(view.machine.online_cpus) as usize;
    assert forall|index: int| 0 <= index < 32 implies match #[trigger] task::balanced(
        view.tasks.tasks,
        online,
        32,
    ).tasks[index] {
        Some(moved) => view.tasks.tasks[index] matches Some(task) && moved == (Task {
            cpu: moved.cpu,
            ..task
        }),
        None => view.tasks.tasks[index] is None,
    } by {
        task::laws::law_rebalancing_only_moves(view.tasks.tasks, online, 32, index);
    }
    task::laws::law_rebalancing_only_moves(view.tasks.tasks, online, 32, 0);
    let after = monitor::spread(view).0.tasks;
    assert forall|i: int| 0 <= i < count implies (#[trigger] after.tasks[i] matches Some(task)
        && task.pid == i + 1) by {
        assert(view.tasks.tasks[i] is Some);
    }
    assert(view.tasks.tasks[0] is Some);
}

proof fn lemma_started_young(view: KernelView, name: &'static str, kind: TaskKind, count: int)
    requires
        young(view.tasks, count),
        1 <= count < 31,
    ensures
        ({
            let (after, result) = monitor::started(view, Some(1u32), name, kind);
            &&& result == Ok::<u32, task::TaskError>((count + 1) as u32)
            &&& young(after.tasks, count + 1)
            &&& after == view.with_tasks(after.tasks)
        }),
{
    reveal(monitor::started);
    lemma_free_slot(view.tasks, count, 0);
    assert(view.tasks.slot(1) == 0);
    let tasks = task::spawned(
        view.tasks,
        Some(1u32),
        name,
        kind,
        task::TaskRelation::Fork,
    ).0;
    assert(young(tasks, count + 1));
    lemma_spread_young(view.with_tasks(tasks), count + 1);
}

proof fn lemma_put_young(view: KernelView, pid: Pid, state: TaskState, count: int)
    requires
        young(view.tasks, count),
        1 <= pid <= count < 32,
        !task::is_zombie(state),
    ensures
        young(monitor::put(view, pid, state).tasks, count),
        monitor::put(view, pid, state) == view.with_tasks(
            monitor::put(view, pid, state).tasks,
        ),
{
    reveal(monitor::put);
    task::lemma_slot(view.tasks.tasks, pid, 0);
    let after = monitor::put(view, pid, state).tasks;
    let at = view.tasks.slot(pid);
    assert(view.tasks.tasks[pid - 1] is Some);
    assert(at <= pid - 1);
    assert forall|i: int| 0 <= i < count implies (#[trigger] after.tasks[i] matches Some(task)
        && task.pid == i + 1) by {
        assert(view.tasks.tasks[i] is Some);
    }
}

proof fn lemma_registered_young(view: KernelView, name: Service, count: int)
    requires
        young(view.tasks, count),
        sparse(view.table, count),
        view.services.len() == count,
        1 <= count < 7,
    ensures
        ({
            let (after, result) = monitor::registered(view, 1, name);
            &&& result is Ok
            &&& young(after.tasks, count + 1)
            &&& sparse(after.table, count + 1)
            &&& after.services.len() == count + 1
        }),
{
    lemma_started_young(view, name.spec_name(), TaskKind::Service, count);
    let with_task = monitor::started(view, Some(1u32), name.spec_name(), TaskKind::Service).0;
    lemma_usable_slot(view.table.endpoints, count, 0);
    lemma_usable_slot(view.table.capabilities, count, 0);
    let pid = (count + 1) as u32;
    let after = monitor::endpoint_registered(with_task, pid, name).0;
    lemma_put_young(after, pid, TaskState::Waiting, count + 1);
}

/// A kernel that has not started can start on every machine.
pub proof fn law_fresh_kernels_boot(machine: Machine, vfs_namespace: bool, network: bool)
    ensures
        boot::booted(KernelView::fresh(machine), vfs_namespace, network) matches Some(after)
            && after.services.len() == (if network {
            5int
        } else {
            4int
        }) && after.tasks.next_pid <= 7,
{
    reveal(boot::booted);
    reveal(monitor::started);
    reveal(monitor::put);
    let fresh = KernelView {
        checks: monitor::Checks { task_lifecycle: true, ipc: true, vfs_namespace },
        ..KernelView::fresh(machine)
    };
    assert forall|from: int| 0 <= from <= 32 implies #[trigger] task::slot_from(
        fresh.tasks.tasks,
        1,
        from,
    ) == 32 by {
        lemma_no_task(fresh.tasks.tasks, from);
    }
    assert(fresh.tasks.slot(1) == 32);
    let first = task::spawned(
        fresh.tasks,
        None,
        "kernel",
        TaskKind::Kernel,
        task::TaskRelation::Fork,
    ).0;
    assert(young(first, 1));
    lemma_spread_young(fresh.with_tasks(first), 1);
    let (with_task, pid) = boot::first_task(fresh).unwrap();
    assert(pid == 1);
    lemma_put_young(with_task, 1, TaskState::Running, 1);
    let running = monitor::put(with_task, 1, TaskState::Running);
    lemma_usable_slot(running.table.endpoints, 0, 0);
    lemma_usable_slot(running.table.capabilities, 0, 0);
    let kernel = boot::with_endpoint(running, 1).unwrap();
    lemma_registered_young(kernel, Service::Console, 1);
    let console = monitor::registered(kernel, 1, Service::Console).0;
    lemma_registered_young(console, Service::Vfs, 2);
    let files = monitor::registered(console, 1, Service::Vfs).0;
    lemma_registered_young(files, Service::Proc, 3);
    let programs = monitor::registered(files, 1, Service::Proc).0;
    if network {
        lemma_registered_young(programs, Service::Net, 4);
        let all = monitor::registered(programs, 1, Service::Net).0;
        lemma_started_young(all, "shell", TaskKind::Shell, 5);
    } else {
        lemma_started_young(programs, "shell", TaskKind::Shell, 4);
    }
}

proof fn lemma_no_task(tasks: Seq<Option<Task>>, from: int)
    requires
        tasks.len() == 32,
        forall|i: int| 0 <= i < 32 ==> #[trigger] tasks[i] is None,
        0 <= from <= 32,
    ensures
        task::slot_from(tasks, 1, from) == 32,
    decreases 32 - from,
{
    if from < 32 {
        lemma_no_task(tasks, from + 1);
    }
}

/// A service that can take requests: its owner may receive and hand out capabilities, its
/// queue is empty, and there are numbers left for messages.
pub open spec fn serving(table: IpcView, service: monitor::ServiceEntry) -> bool {
    &&& ipc::resolved(table, service.pid, service.owner_capability, IpcRights::Receive) == Ok::<
        ipc::EndpointId,
        IpcError,
    >(service.endpoint)
    &&& table.endpoint(service.endpoint) matches Some(endpoint) && endpoint.queue.len() == 0
        && endpoint.next_message_id < u64::MAX
}

/// What is sent to a service that serves arrives there: the request of a task with a
/// capability goes through, and no message stays behind.
pub proof fn law_requests_arrive(
    table: IpcView,
    caller: Pid,
    capability: CapabilityId,
    service: monitor::ServiceEntry,
    request: RequestKind,
    payload: Seq<u8>,
)
    requires
        table.wf(),
        serving(table, service),
        ipc::resolved(table, caller, capability, IpcRights::Send) == Ok::<
            ipc::EndpointId,
            IpcError,
        >(service.endpoint),
        payload.len() <= 192,
    ensures
        ({
            let (after, result) = monitor::exchanged(
                table,
                caller,
                capability,
                service,
                request,
                payload,
            );
            &&& result is Ok
            &&& after.endpoint(service.endpoint) matches Some(endpoint) && endpoint.queue.len() == 0
        }),
{
    reveal(monitor::exchanged);
    let message = Message::spec_new(request, payload);
    ipc::lemma_spec_new(request, payload);
    crate::ipc::laws::law_sent_is_received(
        table,
        caller,
        capability,
        service.pid,
        service.owner_capability,
        message,
    );
}

/// A request that is not for a service, or for one that does not run, changes nothing but
/// the trace, and is refused.
pub proof fn law_strays_are_refused(
    view: KernelView,
    caller: Pid,
    name: Service,
    request: RequestKind,
    detail: Option<Seq<u8>>,
)
    requires
        monitor::service_of(request) != name || monitor::service_from(view.services, name, 0)
            >= view.services.len(),
    ensures
        ({
            let (after, accepted) = monitor::logged(view, caller, name, request, detail);
            &&& !accepted
            &&& after == (KernelView { trace: after.trace, ..view })
        }),
{
    reveal(monitor::logged);
    reveal(monitor::routed);
}

/// Text that the console refuses is not shown, and text that it takes is shown behind what
/// was shown before.
pub proof fn law_refused_text_is_not_shown(view: KernelView, caller: Pid, bytes: Seq<u8>)
    ensures
        monitor::shown(view, caller, bytes).output == (if monitor::logged(
            view,
            caller,
            Service::Console,
            RequestKind::ConsoleWrite,
            None,
        ).1 {
            view.output + bytes
        } else {
            view.output
        }),
{
    reveal(monitor::shown);
    reveal(monitor::logged);
    reveal(monitor::routed);
}

/// The trace keeps the newest requests and never more than it has room for.
pub proof fn law_traces_stay_short(trace: Seq<Seq<u8>>, line: Seq<u8>)
    requires
        trace.len() <= monitor::MAX_TRACE,
    ensures
        monitor::traced(trace, line).len() <= monitor::MAX_TRACE,
        monitor::traced(trace, line).last() == line,
        trace.len() < monitor::MAX_TRACE ==> monitor::traced(trace, line).drop_last() == trace,
        trace.len() == monitor::MAX_TRACE ==> monitor::traced(trace, line).drop_last()
            == trace.drop_first(),
{
    if trace.len() < monitor::MAX_TRACE {
        assert(monitor::traced(trace, line).drop_last() =~= trace);
    } else {
        assert(monitor::traced(trace, line).drop_last() =~= trace.drop_first());
    }
}

/// What no command changes: the shell, the services, the machine and the checks.
pub open spec fn same_house(before: KernelView, after: KernelView) -> bool {
    &&& after.shell_pid == before.shell_pid
    &&& after.services == before.services
    &&& after.machine == before.machine
    &&& after.checks == before.checks
}

/// The house is the same, and no task was started.
spec fn settled(before: KernelView, after: KernelView) -> bool {
    same_house(before, after) && after.tasks.next_pid == before.tasks.next_pid
}

/// The house is the same, and at most one task was started.
pub open spec fn grown(before: KernelView, after: KernelView) -> bool {
    same_house(before, after) && before.tasks.next_pid <= after.tasks.next_pid
        <= before.tasks.next_pid + 1
}

#[verifier::opaque]
spec fn steady() -> bool {
    &&& forall|view: KernelView, caller: Pid, name: Service, request: RequestKind, detail: Option<
        Seq<u8>,
    >|
        settled(view, (#[trigger] monitor::logged(view, caller, name, request, detail)).0)
    &&& forall|view: KernelView, caller: Pid, bytes: Seq<u8>|
        settled(view, #[trigger] monitor::shown(view, caller, bytes))
    &&& forall|view: KernelView, pid: Pid, state: TaskState|
        settled(view, #[trigger] monitor::put(view, pid, state))
    &&& forall|view: KernelView| settled(view, (#[trigger] monitor::spread(view)).0)
    &&& forall|view: KernelView, parent: Option<Pid>, name: &'static str, kind: TaskKind|
        grown(view, (#[trigger] monitor::started(view, parent, name, kind)).0)
    &&& forall|view: KernelView| grown(view, (#[trigger] commands::shell_forked(view)).0)
    &&& forall|view: KernelView, pid: Pid, status: i32|
        settled(view, (#[trigger] commands::ended(view, pid, status)).0)
    &&& forall|view: KernelView, target: Option<Pid>, options: u32|
        settled(view, (#[trigger] commands::reaped(view, target, options)).0)
}

proof fn lemma_steady()
    ensures
        steady(),
{
    reveal(steady);
    reveal(monitor::routed);
    reveal(monitor::logged);
    reveal(monitor::shown);
    reveal(monitor::put);
    reveal(monitor::spread);
    reveal(monitor::started);
    reveal(commands::shell_forked);
    reveal(commands::ended);
    reveal(commands::reaped);
}

proof fn lemma_reaping_steady(view: KernelView, options: u32, rounds: nat)
    ensures
        settled(view, commands::all_reaped(view, options, rounds).0),
    decreases rounds,
{
    lemma_steady();
    reveal(steady);
    if rounds > 0 {
        let (after, result) = commands::reaped(view, None, options);
        if let Ok(Some(child)) = result {
            lemma_reaping_steady(
                commands::reported(after, child),
                options,
                (rounds - 1) as nat,
            );
        }
    }
}

proof fn lemma_commands_steady(view: KernelView, words: Seq<Seq<char>>)
    ensures
        grown(view, commands::fork_run(view, words)),
        grown(view, commands::clone_run(view, words)),
{
    lemma_steady();
    reveal(steady);
    reveal(commands::fork_run);
    reveal(commands::clone_run);
    reveal(commands::shell_cloned);
    reveal(commands::clone_told);
}

proof fn lemma_waits_steady(view: KernelView, words: Seq<Seq<char>>)
    ensures
        settled(view, commands::wait_run(view, words)),
        settled(view, commands::wait4_run(view, words)),
{
    lemma_steady();
    reveal(steady);
    reveal(commands::wait_run);
    reveal(commands::wait4_run);
    assert forall|view: KernelView, options: u32| settled(
        view,
        (#[trigger] commands::all_reaped(view, options, 32)).0,
    ) by {
        lemma_reaping_steady(view, options, 32);
    }
}

proof fn lemma_policies_steady(view: KernelView, words: Seq<Seq<char>>)
    ensures
        settled(view, commands::kill_run(view, words)),
        settled(view, commands::nice_run(view, words)),
        settled(view, commands::chrt_run(view, words)),
        settled(view, commands::taskset_run(view, words)),
        settled(view, commands::rebalance_run(view)),
{
    lemma_steady();
    reveal(steady);
    reveal(commands::kill_run);
    reveal(commands::signal_sent);
    reveal(commands::nice_run);
    reveal(commands::chrt_run);
    reveal(commands::taskset_run);
    reveal(commands::confined);
    reveal(commands::rebalance_run);
}

proof fn lemma_children_steady()
    ensures
        forall|view: KernelView| grown(view, (#[trigger] demos::child_started(view)).0),
        forall|view: KernelView, child: Pid, name: &str|
            settled(view, #[trigger] demos::finished(view, child, name)),
{
    lemma_steady();
    reveal(steady);
    reveal(demos::child_started);
    reveal(demos::finished);
}

proof fn lemma_waiters_steady(view: KernelView)
    ensures
        grown(view, demos::signal_shown(view)),
        grown(view, demos::futex_shown(view)),
        grown(view, demos::queue_shown(view)),
{
    lemma_steady();
    lemma_children_steady();
    reveal(steady);
    reveal(demos::signal_shown);
    reveal(demos::handler_set);
    reveal(commands::signal_sent);
    reveal(demos::signal_taken);
    reveal(demos::futex_shown);
    reveal(demos::held_at);
    reveal(demos::woken_at);
    reveal(demos::queue_shown);
    reveal(demos::held_in);
    reveal(demos::woken_in);
}

/// Timers that expire start no task.
proof fn lemma_polling_starts_none(tasks: TableView, now_ns: u64, count: nat)
    ensures
        task::polled(tasks, now_ns, count).0.next_pid == tasks.next_pid,
    decreases count,
{
    if count > 0 {
        lemma_polling_starts_none(tasks, now_ns, (count - 1) as nat);
    }
}

proof fn lemma_due_steady()
    ensures
        forall|view: KernelView, now_ns: u64|
            settled(view, (#[trigger] demos::due(view, now_ns)).0),
{
    reveal(demos::due);
    assert forall|view: KernelView, now_ns: u64| settled(
        view,
        (#[trigger] demos::due(view, now_ns)).0,
    ) by {
        lemma_polling_starts_none(view.tasks, now_ns, 32);
    }
}

proof fn lemma_timers_steady(view: KernelView, words: Seq<Seq<char>>, now_ns: u64)
    ensures
        grown(view, demos::timer_shown(view, now_ns)),
        grown(view, demos::sleep_started(view, words, now_ns).0),
{
    lemma_steady();
    lemma_children_steady();
    reveal(steady);
    lemma_due_steady();
    reveal(demos::timer_shown);
    reveal(demos::timer_armed);
    reveal(demos::timer_stopped);
    reveal(demos::sleep_started);
    reveal(demos::asleep);
}

proof fn lemma_services_steady(
    view: KernelView,
    services: Seq<monitor::ServiceEntry>,
    count: nat,
)
    ensures
        settled(view, report::services_shown(view, services, count)),
    decreases count,
{
    lemma_steady();
    reveal(steady);
    if count > 0 {
        lemma_services_steady(view, services, (count - 1) as nat);
    }
}

proof fn lemma_programs_steady(view: KernelView, count: nat)
    ensures
        settled(view, shell::programs_shown(view, count)),
    decreases count,
{
    lemma_steady();
    reveal(steady);
    if count > 0 {
        lemma_programs_steady(view, (count - 1) as nat);
    }
}

proof fn lemma_tasks_steady(view: KernelView, count: nat)
    ensures
        settled(view, report::tasks_shown(view, count)),
    decreases count,
{
    if count > 0 {
        lemma_tasks_steady(view, (count - 1) as nat);
    }
}

proof fn lemma_trace_steady(view: KernelView, count: nat)
    ensures
        settled(view, report::trace_shown(view, count)),
    decreases count,
{
    if count > 0 {
        lemma_trace_steady(view, (count - 1) as nat);
    }
}

proof fn lemma_reports_steady(view: KernelView, name: Seq<char>)
    ensures
        shell::report_run(view, name) matches Some(after) ==> settled(view, after),
{
    lemma_steady();
    reveal(steady);
    reveal(shell::report_run);
    reveal(shell::helped);
    reveal(report::all_tasks_shown);
    reveal(report::whole_trace_shown);
    lemma_programs_steady(view, 7);
    lemma_trace_steady(view, view.trace.len());
    assert forall|view: KernelView| settled(
        view,
        #[trigger] report::services_shown(view, view.services, view.services.len()),
    ) by {
        lemma_services_steady(view, view.services, view.services.len());
    }
    assert forall|view: KernelView| settled(view, #[trigger] report::tasks_shown(view, 32)) by {
        lemma_tasks_steady(view, 32);
    }
}

/// No line that is typed changes the shell, the services, the machine or the checks, and
/// none starts more than one task.
pub proof fn law_lines_keep_the_house(view: KernelView, line: Seq<char>, now_ns: u64)
    ensures
        grown(view, shell::commanded(view, line, now_ns).0),
{
    let words = shell::words_of(line);
    if words.len() > 0 {
        lemma_reports_steady(view, words[0]);
        lemma_commands_steady(view, words);
        lemma_waits_steady(view, words);
        lemma_policies_steady(view, words);
        lemma_waiters_steady(view);
        lemma_timers_steady(view, words, now_ns);
        lemma_steady();
        reveal(steady);
        reveal(shell::task_run);
        reveal(shell::path_run);
        reveal(shell::other_run);
        reveal(report::ping_started);
    }
}

/// Starting a program keeps the house and starts at most one task; ending it, and watching
/// over a child that sleeps, starts none.
pub proof fn law_programs_keep_the_house(
    view: KernelView,
    path: Seq<char>,
    exists_there: bool,
    executable: bool,
    pid: Pid,
    status: i32,
    background: bool,
    sleeper: demos::Sleeper,
    now_ns: u64,
)
    ensures
        grown(view, shell::launched(view, path, exists_there, executable).0),
        same_house(view, shell::concluded(view, pid, status, background)),
        shell::concluded(view, pid, status, background).tasks.next_pid == view.tasks.next_pid,
        same_house(view, demos::sleep_watched(view, sleeper, now_ns).0),
        demos::sleep_watched(view, sleeper, now_ns).0.tasks.next_pid == view.tasks.next_pid,
{
    lemma_steady();
    lemma_children_steady();
    lemma_due_steady();
    reveal(steady);
    reveal(shell::launched);
    reveal(shell::image_set);
    reveal(shell::concluded);
    reveal(demos::sleep_watched);
}

} // verus!
