use rustix_vkernel::kernel::run_queue::{self, RunQueue, RunQueues};
use rustix_vkernel::kernel::task::{
    lifecycle_self_test, SchedulingPolicy, SignalAction, TaskError, TaskKind, TaskState, TaskTable,
    WaitError, CLONE_FILES, CLONE_FS, CLONE_SIGHAND, CLONE_THREAD, CLONE_VM, SIGCHLD, SIGKILL,
    SIGUSR1, WNOHANG,
};

fn family() -> (TaskTable, u32, u32) {
    let mut tasks = TaskTable::new();
    let kernel = tasks.spawn(None, "kernel", TaskKind::Kernel).unwrap();
    let shell = tasks.spawn(Some(kernel), "shell", TaskKind::Shell).unwrap();
    (tasks, kernel, shell)
}

#[test]
fn tasks_pass_their_own_test() {
    assert!(lifecycle_self_test());
}

#[test]
fn tasks_need_a_parent_that_lives() {
    let mut tasks = TaskTable::new();
    assert_eq!(
        tasks.spawn(Some(5), "orphan", TaskKind::User),
        Err(TaskError::ParentNotFound)
    );
    assert_eq!(
        tasks.spawn(None, "user", TaskKind::User),
        Err(TaskError::ParentNotFound)
    );
    let (mut tasks, _, shell) = family();
    assert_eq!(tasks.fork(99), Err(TaskError::ParentNotFound));
    assert_eq!(tasks.fork(shell), Ok(3));
}

#[test]
fn the_table_has_room_for_so_many() {
    let (mut tasks, _, shell) = family();
    for _ in 0..30 {
        assert!(tasks.fork(shell).is_ok());
    }
    assert_eq!(tasks.fork(shell), Err(TaskError::TableFull));
    assert_eq!(tasks.active_count(), 32);
}

#[test]
fn an_exit_status_is_kept_for_the_parent() {
    let (mut tasks, kernel, shell) = family();
    let child = tasks.fork(shell).unwrap();
    assert_eq!(tasks.wait(shell, Some(child)), Err(WaitError::WouldBlock));
    assert_eq!(tasks.wait4(shell, Some(child), WNOHANG), Ok(None));
    assert_eq!(tasks.exit(child, 42), Ok(()));
    assert_eq!(tasks.exit(child, 1), Err(TaskError::AlreadyExited));
    assert_eq!(tasks.zombie_count(), 1);
    let result = tasks.wait(shell, Some(child)).unwrap();
    assert_eq!((result.pid, result.status), (child, 42));
    assert_eq!(tasks.wait(shell, None), Err(WaitError::NoChild));
    assert_eq!(tasks.exit(kernel, 0), Err(TaskError::InitCannotExit));
    assert_eq!(tasks.exit(77, 0), Err(TaskError::TaskNotFound));
}

#[test]
fn orphans_go_to_the_first_task() {
    let (mut tasks, kernel, shell) = family();
    let child = tasks.fork(shell).unwrap();
    let grandchild = tasks.fork(child).unwrap();
    assert_eq!(tasks.exit(child, 0), Ok(()));
    assert_eq!(tasks.get_by_pid(grandchild).unwrap().parent, Some(kernel));
}

#[test]
fn threads_share_their_group() {
    let (mut tasks, _, shell) = family();
    let flags = CLONE_VM | CLONE_SIGHAND | CLONE_THREAD | CLONE_FS | CLONE_FILES;
    let thread = tasks.clone_task(shell, "thread", flags).unwrap();
    let task = tasks.get_by_pid(thread).unwrap();
    assert_eq!((task.tgid, task.clone_flags), (shell, 0x10f00));
    assert_eq!(
        tasks.clone_task(shell, "thread", CLONE_THREAD),
        Err(TaskError::InvalidCloneFlags)
    );
}

#[test]
fn signals_are_delivered_to_their_handler() {
    let (mut tasks, _, shell) = family();
    let child = tasks.fork(shell).unwrap();
    let action = SignalAction { handler: 0x40_1000, flags: 0, mask: 0 };
    assert_eq!(tasks.set_signal_action(child, SIGUSR1, action), Ok(()));
    assert_eq!(tasks.deliver_signal(child).err(), Some(TaskError::NoSignalPending));
    assert_eq!(tasks.send_signal(child, SIGUSR1), Ok(()));
    let frame = tasks.deliver_signal(child).unwrap();
    assert_eq!((frame.signum, frame.handler), (SIGUSR1, 0x40_1000));
    assert_eq!(frame.saved_sp, 0x7f_ffff_f000 - u64::from(child) * 0x1000);
    assert_eq!(tasks.send_signal(child, 40), Err(TaskError::InvalidSignal));
    assert_eq!(tasks.send_signal(child, SIGKILL), Ok(()));
    assert_eq!(tasks.get_by_pid(shell).unwrap().pending_signals & (1 << SIGCHLD), 1 << SIGCHLD);
}

#[test]
fn waiters_wake_in_the_order_in_which_they_came() {
    let (mut tasks, _, shell) = family();
    let first = tasks.fork(shell).unwrap();
    let second = tasks.fork(shell).unwrap();
    assert_eq!(tasks.futex_wait(second, 0x1000, 1, 1), Ok(()));
    assert_eq!(tasks.futex_wait(first, 0x1000, 1, 1), Ok(()));
    assert_eq!(tasks.futex_wake(0x1000, 1), Ok(1));
    assert_eq!(tasks.get_by_pid(second).unwrap().state, TaskState::Ready);
    assert_eq!(tasks.get_by_pid(first).unwrap().state, TaskState::FutexWait(0x1000));
    assert_eq!(
        tasks.futex_wait(shell, 0x1000, 2, 1),
        Err(TaskError::FutexValueChanged)
    );
    assert_eq!(
        tasks.futex_wait(shell, 0x1001, 1, 1),
        Err(TaskError::InvalidFutexAddress)
    );
    assert_eq!(tasks.futex_wake(0x1000, 8), Ok(1));
    assert_eq!(tasks.wait_queue_wait(first, 7), Ok(()));
    assert_eq!(tasks.wait_queue_wake(7, 8), Ok(1));
    assert_eq!(tasks.wait_queue_wake(7, 8), Ok(0));
}

#[test]
fn sleepers_wake_when_their_time_has_come() {
    let (mut tasks, _, shell) = family();
    let child = tasks.fork(shell).unwrap();
    assert!(tasks.sleep_for(child, 1_000, 500).is_ok());
    assert_eq!(tasks.next_timer_deadline(), Some(1_500));
    let early = tasks.poll_timers(1_499);
    assert_eq!((early.expirations, early.woken), (0, 0));
    let due = tasks.poll_timers(1_500);
    assert_eq!((due.expirations, due.woken, due.rearmed), (1, 1, 0));
    assert_eq!(tasks.get_by_pid(child).unwrap().state, TaskState::Ready);
    assert_eq!(tasks.timer_count(), 0);
}

#[test]
fn periodic_timers_move_on() {
    let (mut tasks, _, shell) = family();
    let child = tasks.fork(shell).unwrap();
    let timer = tasks.arm_timer(child, 0, 100, 100).unwrap();
    let result = tasks.poll_timers(350);
    assert_eq!((result.expirations, result.rearmed), (3, 1));
    assert_eq!(tasks.next_timer_deadline(), Some(400));
    assert_eq!(tasks.get_by_pid(child).unwrap().timer_expirations, 3);
    assert_eq!(tasks.cancel_timer(child, timer), Ok(()));
    assert!(tasks.cancel_timer(child, timer).is_err());
}

#[test]
fn urgent_tasks_run_first() {
    let (mut tasks, kernel, shell) = family();
    assert_eq!(tasks.set_scheduler(shell, SchedulingPolicy::Fifo, 50), Ok(()));
    assert_eq!(
        tasks.set_scheduler(shell, SchedulingPolicy::Fifo, 0),
        Err(TaskError::InvalidPriority)
    );
    assert_eq!(tasks.set_nice(kernel, 20), Err(TaskError::InvalidNice));
    assert_eq!(tasks.set_nice(kernel, -20), Ok(()));
    assert_eq!(tasks.pick_next(0), Some(shell));
    assert_eq!(tasks.set_affinity(shell, 0b10, 2), Ok(0b10));
    assert_eq!(tasks.set_affinity(shell, 0b100, 2), Err(TaskError::InvalidAffinity));
    assert_eq!(tasks.rebalance(2), Ok(0));
    assert_eq!(tasks.get_by_pid(shell).unwrap().cpu, 1);
    assert_eq!(tasks.pick_next(0), Some(kernel));
}

#[test]
fn groups_and_sessions_are_kept() {
    let (mut tasks, _, shell) = family();
    let child = tasks.fork(shell).unwrap();
    assert_eq!(tasks.setsid(child), Ok(child));
    let task = tasks.get_by_pid(child).unwrap();
    assert_eq!((task.pgid, task.sid), (child, child));
    assert_eq!(tasks.account_tick(child), Ok(()));
    assert_eq!(tasks.get_by_pid(child).unwrap().runtime_ticks, 1);
    assert_eq!(tasks.execve(child, "/bin/echo"), Ok(()));
    assert_eq!(tasks.get_by_pid(child).unwrap().name, "/bin/echo");
}

#[test]
fn queues_hand_out_the_most_urgent_thread() {
    let mut queue = RunQueue::new();
    assert!(queue.enqueue(3, 10));
    assert!(queue.enqueue(5, 40));
    assert!(queue.enqueue(7, 40));
    assert_eq!(queue.len(), 3);
    let first = queue.pop_highest().unwrap();
    assert!(first == 5 || first == 7);
    assert_eq!(queue.len(), 2);
    assert!(queue.enqueue(first, 40));
    assert_eq!(queue.len(), 3);
    let second = queue.pop_highest().unwrap();
    assert_ne!(first, second);
    assert!(queue.remove(first));
    assert_eq!(queue.len(), 1);
    assert_eq!(queue.pop_highest(), Some(3));
    assert_eq!(queue.pop_highest(), None);
    assert!(!queue.remove(3));
}

#[test]
fn every_processor_has_a_queue() {
    assert!(run_queue::self_test());
    let mut queues = RunQueues::new();
    assert!(run_queue::enqueue(&mut queues, 2, 4, 1));
    assert_eq!(run_queue::len(&queues, 2), 1);
    assert_eq!(run_queue::len(&queues, 1), 0);
    assert_eq!(run_queue::pop_highest(&mut queues, 1), None);
    assert_eq!(run_queue::pop_highest(&mut queues, 2), Some(4));
    assert!(!run_queue::enqueue(&mut queues, 99, 4, 1));
}
