//! The commands of the shell that show how tasks wait, sleep and take signals.
use crate::chars;
use crate::fixed;
use crate::ipc::RequestKind;
use crate::kernel::monitor;
use crate::kernel::monitor::commands;
use crate::kernel::monitor::{Kernel, KernelView};
use crate::kernel::task;
use crate::kernel::task::{
    Pid, SignalAction, SignalFrame, TaskError, TaskState, TimerPollResult,
};
use crate::lines;
use crate::lines::Line;
use crate::numbers;
use crate::text;
use vstd::prelude::*;

verus! {

pub const FUTEX_ADDRESS: u64 = 0x7000_1000;

pub const QUEUE_KEY: u64 = 0x51;

/// A child of the shell that runs.
#[verifier::opaque]
pub open spec fn child_started(view: KernelView) -> (KernelView, Result<Pid, TaskError>) {
    match commands::shell_forked(view) {
        (view, Err(error)) => (monitor::failed(view, error), Err(error)),
        (view, Ok(child)) => (monitor::put(view, child, TaskState::Running), Ok(child)),
    }
}

/// The end of a child, and its release.
#[verifier::opaque]
pub open spec fn finished(view: KernelView, child: Pid, name: &str) -> KernelView {
    match commands::ended(view, child, 0) {
        (view, Err(error)) => monitor::failed(view, error),
        (view, Ok(_)) => match commands::reaped(view, Some(child), 0) {
            (view, Ok(Some(result))) => commands::reported(view, result),
            (view, _) => monitor::told(
                view,
                lines::none().push(text::literal(name)).push(
                    text::literal(": child could not be reaped"),
                ),
                64,
            ),
        },
    }
}

/// The line on the frame with which a signal is handled.
pub open spec fn frame_pieces(child: Pid, frame: SignalFrame) -> Seq<Seq<u8>> {
    lines::none().push(text::literal("rt_sigframe: pid=")).push(fixed::decimal(child as nat)).push(
        text::literal(" sig="),
    ).push(fixed::decimal(frame.signum as nat)).push(text::literal(" handler=0x")).push(
        fixed::hexadecimal(frame.handler as nat),
    ).push(text::literal(" restorer=0x")).push(fixed::hexadecimal(frame.restorer as nat)).push(
        text::literal(" ip=0x"),
    ).push(fixed::hexadecimal(frame.saved_ip as nat)).push(text::literal(" sp=0x")).push(
        fixed::hexadecimal(frame.saved_sp as nat),
    )
}

/// The handler of a signal.
#[verifier::opaque]
pub open spec fn handler_set(view: KernelView, pid: Pid, signal: u8, action: SignalAction) -> (
    KernelView,
    Result<(), TaskError>,
) {
    let (tasks, result) = task::action_set(view.tasks, pid, signal, action);
    (view.with_tasks(tasks), result)
}

/// The next signal of a task.
#[verifier::opaque]
pub open spec fn signal_taken(view: KernelView, pid: Pid) -> (
    KernelView,
    Result<SignalFrame, TaskError>,
) {
    let (tasks, result) = task::delivered(view.tasks, pid);
    (view.with_tasks(tasks), result)
}

#[verifier::opaque]
pub open spec fn signal_shown(view: KernelView) -> KernelView {
    let view = commands::asked(
        view,
        view.shell_pid,
        RequestKind::ProcFork,
        Some(text::literal("sigdemo")),
    );
    match child_started(view) {
        (view, Err(_)) => view,
        (view, Ok(child)) => {
            let action = SignalAction { handler: 0x401000, flags: 0, mask: 0 };
            match handler_set(view, child, task::SIGUSR1, action) {
                (view, Err(error)) => monitor::failed(view, error),
                (view, Ok(_)) => {
                    let view = commands::asked(
                        view,
                        view.shell_pid,
                        RequestKind::ProcSignal,
                        Some(text::literal("SIGUSR1")),
                    );
                    match commands::signal_sent(view, child, task::SIGUSR1) {
                        (view, Err(error)) => monitor::failed(view, error),
                        (view, Ok(_)) => match signal_taken(view, child) {
                            (view, Err(error)) => monitor::failed(view, error),
                            (view, Ok(frame)) => {
                                let view = monitor::told(view, frame_pieces(child, frame), 160);
                                let view = commands::asked(
                                    view,
                                    child,
                                    RequestKind::ProcExit,
                                    None,
                                );
                                finished(view, child, "sigdemo")
                            },
                        },
                    }
                },
            }
        },
    }
}

/// A task that waits at an address.
#[verifier::opaque]
pub open spec fn held_at(
    view: KernelView,
    pid: Pid,
    address: u64,
    observed: u32,
    expected: u32,
) -> (KernelView, Result<(), TaskError>) {
    let (tasks, result) = task::futex_waited(view.tasks, pid, address, observed, expected);
    (view.with_tasks(tasks), result)
}

/// Tasks that wait at an address, woken.
#[verifier::opaque]
pub open spec fn woken_at(view: KernelView, address: u64, maximum: usize) -> (
    KernelView,
    Result<usize, TaskError>,
) {
    let (tasks, result) = task::futex_woken(view.tasks, address, maximum);
    (view.with_tasks(tasks), result)
}

/// The line on tasks that waited at an address.
pub open spec fn futex_pieces(woken: usize, rejected: bool) -> Seq<Seq<u8>> {
    lines::none().push(text::literal("futex: addr=0x")).push(
        fixed::hexadecimal(FUTEX_ADDRESS as nat),
    ).push(text::literal(" wait=ok wake=")).push(fixed::decimal(woken as nat)).push(
        text::literal(" value-check="),
    ).push(
        text::literal(
            if rejected {
                "EAGAIN"
            } else {
                "failed"
            },
        ),
    )
}

#[verifier::opaque]
pub open spec fn futex_shown(view: KernelView) -> KernelView {
    let view = commands::asked(
        view,
        view.shell_pid,
        RequestKind::ProcFork,
        Some(text::literal("futexdemo")),
    );
    match child_started(view) {
        (view, Err(_)) => view,
        (view, Ok(child)) => {
            let view = commands::asked(
                view,
                child,
                RequestKind::ProcFutex,
                Some(text::literal("FUTEX_WAIT")),
            );
            match held_at(view, child, FUTEX_ADDRESS, 1, 1) {
                (view, Err(error)) => monitor::failed(view, error),
                (view, Ok(_)) => {
                    let (view, changed) = held_at(view, view.shell_pid, FUTEX_ADDRESS, 2, 1);
                    let view = commands::asked(
                        view,
                        view.shell_pid,
                        RequestKind::ProcFutex,
                        Some(text::literal("FUTEX_WAKE")),
                    );
                    match woken_at(view, FUTEX_ADDRESS, 1) {
                        (view, Err(error)) => monitor::failed(view, error),
                        (view, Ok(woken)) => finished(
                            monitor::told(view, futex_pieces(woken, changed is Err), 128),
                            child,
                            "futexdemo",
                        ),
                    }
                },
            }
        },
    }
}

/// A task in a queue.
#[verifier::opaque]
pub open spec fn held_in(view: KernelView, pid: Pid, key: u64) -> (
    KernelView,
    Result<(), TaskError>,
) {
    let (tasks, result) = task::queue_waited(view.tasks, pid, key);
    (view.with_tasks(tasks), result)
}

/// Tasks of a queue, woken.
#[verifier::opaque]
pub open spec fn woken_in(view: KernelView, key: u64, maximum: usize) -> (
    KernelView,
    Result<usize, TaskError>,
) {
    let (tasks, result) = task::queue_woken(view.tasks, key, maximum);
    (view.with_tasks(tasks), result)
}

#[verifier::opaque]
pub open spec fn queue_shown(view: KernelView) -> KernelView {
    match child_started(view) {
        (view, Err(_)) => view,
        (view, Ok(child)) => {
            let view = commands::asked(
                view,
                child,
                RequestKind::ProcWaitQueue,
                Some(text::literal("wait")),
            );
            match held_in(view, child, QUEUE_KEY) {
                (view, Err(error)) => monitor::failed(view, error),
                (view, Ok(_)) => match woken_in(view, QUEUE_KEY, 1) {
                    (view, Err(error)) => monitor::failed(view, error),
                    (view, Ok(woken)) => finished(
                        monitor::told(
                            view,
                            lines::none().push(text::literal("wait-queue: key=0x")).push(
                                fixed::hexadecimal(QUEUE_KEY as nat),
                            ).push(text::literal(" wake=")).push(fixed::decimal(woken as nat)),
                            64,
                        ),
                        child,
                        "waitqdemo",
                    ),
                },
            }
        },
    }
}

/// A timer that notifies a task.
#[verifier::opaque]
pub open spec fn timer_armed(view: KernelView, pid: Pid, now_ns: u64) -> (
    KernelView,
    Result<u32, TaskError>,
) {
    let (tasks, result) = task::armed(view.tasks, pid, now_ns, 1_000_000, 1_000_000);
    (view.with_tasks(tasks), result)
}

/// The timers that are due.
#[verifier::opaque]
pub open spec fn due(view: KernelView, now_ns: u64) -> (KernelView, TimerPollResult) {
    let (tasks, result) = task::polled(view.tasks, now_ns, 32);
    (view.with_tasks(tasks), result)
}

/// A timer that stops.
#[verifier::opaque]
pub open spec fn timer_stopped(view: KernelView, pid: Pid, timer_id: u32) -> (
    KernelView,
    Result<(), TaskError>,
) {
    let (tasks, result) = task::cancelled(view.tasks, pid, timer_id);
    (view.with_tasks(tasks), result)
}

/// How often timers have notified a task.
#[verifier::opaque]
pub open spec fn notifications(view: KernelView, pid: Pid) -> u32 {
    match view.tasks.task(pid) {
        Some(task) => task.timer_expirations,
        None => 0,
    }
}

/// A time three and a half milliseconds later.
pub open spec fn shortly_after(now_ns: u64) -> u64 {
    if now_ns + 3_500_000 > u64::MAX {
        u64::MAX
    } else {
        (now_ns + 3_500_000) as u64
    }
}

#[verifier::opaque]
pub open spec fn timer_shown(view: KernelView, now_ns: u64) -> KernelView {
    match child_started(view) {
        (view, Err(_)) => view,
        (view, Ok(child)) => {
            let view = commands::asked(
                view,
                child,
                RequestKind::ProcTimer,
                Some(text::literal("periodic")),
            );
            match timer_armed(view, child, now_ns) {
                (view, Err(error)) => monitor::failed(view, error),
                (view, Ok(timer_id)) => {
                    let (view, result) = due(view, shortly_after(now_ns));
                    let view = monitor::told(
                        view,
                        lines::none().push(text::literal("timer: id=")).push(
                            fixed::decimal(timer_id as nat),
                        ).push(text::literal(" expired=")).push(
                            fixed::decimal(result.expirations as nat),
                        ).push(text::literal(" rearmed=")).push(
                            fixed::decimal(result.rearmed as nat),
                        ).push(text::literal(" notifications=")).push(
                            fixed::decimal(notifications(view, child) as nat),
                        ),
                        96,
                    );
                    match timer_stopped(view, child, timer_id) {
                        (view, Err(error)) => monitor::failed(view, error),
                        (view, Ok(_)) => finished(view, child, "timerdemo"),
                    }
                },
            }
        },
    }
}

/// A child that sleeps, with its number and how long.
#[derive(Clone, Copy, Debug, PartialEq, Eq, Structural)]
pub struct Sleeper {
    pub child: Pid,
    pub milliseconds: u64,
}

/// A task that sleeps.
#[verifier::opaque]
pub open spec fn asleep(view: KernelView, pid: Pid, now_ns: u64, duration_ns: u64) -> (
    KernelView,
    Option<TaskError>,
) {
    let (tasks, result) = task::slept(view.tasks, pid, now_ns, duration_ns);
    (
        view.with_tasks(tasks),
        match result {
            Ok(_) => None,
            Err(error) => Some(error),
        },
    )
}

/// A child falls asleep, and who it is.
#[verifier::opaque]
pub open spec fn sleep_started(view: KernelView, words: Seq<Seq<char>>, now_ns: u64) -> (
    KernelView,
    Option<Sleeper>,
) {
    if words.len() != 2 {
        (monitor::said(view, "usage: sleep <milliseconds>"), None)
    } else {
        match numbers::unsigned(words[1], 10, u64::MAX as int) {
            Some(time) => if time < 1 || time > 5000 {
                (monitor::said(view, "sleep: milliseconds must be between 1 and 5000"), None)
            } else {
                match child_started(view) {
                    (view, Err(_)) => (view, None),
                    (view, Ok(child)) => {
                        let view = commands::asked(
                            view,
                            child,
                            RequestKind::ProcTimer,
                            Some(text::literal("sleep")),
                        );
                        match asleep(view, child, now_ns, (time * 1_000_000) as u64) {
                            (view, Some(error)) => (monitor::failed(view, error), None),
                            (view, None) => (
                                view,
                                Some(Sleeper { child, milliseconds: time as u64 }),
                            ),
                        }
                    },
                }
            },
            None => (
                monitor::said(view, "sleep: milliseconds must be between 1 and 5000"),
                None,
            ),
        }
    }
}

/// Whether a task sleeps.
#[verifier::opaque]
pub open spec fn sleeps(view: KernelView, pid: Pid) -> bool {
    view.tasks.task(pid) matches Some(task) && task.state is Sleeping
}

/// A look at the clock while a child sleeps; once it is awake it ends.
#[verifier::opaque]
pub open spec fn sleep_watched(view: KernelView, sleeper: Sleeper, now_ns: u64) -> (
    KernelView,
    bool,
) {
    let (view, result) = due(view, now_ns);
    if sleeps(view, sleeper.child) {
        (view, false)
    } else {
        let view = monitor::told(
            view,
            lines::none().push(text::literal("sleep: ")).push(
                fixed::decimal(sleeper.milliseconds as nat),
            ).push(text::literal(" ms expired=")).push(
                fixed::decimal(result.expirations as nat),
            ).push(text::literal(" wake=")).push(fixed::decimal(result.woken as nat)),
            64,
        );
        (finished(view, sleeper.child, "sleep"), true)
    }
}

impl Kernel {
    fn start_child(&mut self) -> (child: Option<Pid>)
        requires
            old(self).wf(),
        ensures
            final(self).wf(),
            final(self)@ == child_started(old(self)@).0,
            child == (match child_started(old(self)@).1 {
                Ok(child) => Some(child),
                Err(_) => None,
            }),
            child matches Some(pid) ==> pid == old(self)@.tasks.next_pid,
    {
        reveal(child_started);
        proof {
            lemma_fork_number(old(self)@);
        }
        match self.fork_shell() {
            Ok(child) => {
                self.set_state(child, TaskState::Running);
                Some(child)
            },
            Err(error) => {
                self.write_error(error);
                None
            },
        }
    }

    /// Ends a child and releases it.
    pub fn finish_demo_child(&mut self, child: Pid, name: &str)
        requires
            old(self).wf(),
        ensures
            final(self).wf(),
            final(self)@ == finished(old(self)@, child, name),
    {
        reveal(finished);
        if let Err(error) = self.end_task(child, 0) {
            self.write_error(error);
            return ;
        }
        match self.reap(Some(child), 0) {
            Ok(Some(result)) => self.report_wait(result),
            _ => self.write_filled::<64>(
                Line::new().text(name).text(": child could not be reaped"),
            ),
        }
    }

    fn set_handler(&mut self, pid: Pid, signal: u8, action: SignalAction) -> (result: Result<
        (),
        TaskError,
    >)
        requires
            old(self).wf(),
        ensures
            final(self).wf(),
            (final(self)@, result) == handler_set(old(self)@, pid, signal, action),
    {
        reveal(handler_set);
        self.tasks.set_signal_action(pid, signal, action)
    }

    fn take_signal(&mut self, pid: Pid) -> (result: Result<SignalFrame, TaskError>)
        requires
            old(self).wf(),
            pid <= 0x7ff_ffff,
        ensures
            final(self).wf(),
            (final(self)@, result) == signal_taken(old(self)@, pid),
    {
        reveal(signal_taken);
        self.tasks.deliver_signal(pid)
    }

    /// Shows how a child takes a signal. Its stack lies below the address that its number
    /// gives.
    pub fn signal_demo(&mut self)
        requires
            old(self).wf(),
            old(self)@.tasks.next_pid <= 0x7ff_ffff,
        ensures
            final(self).wf(),
            final(self)@ == signal_shown(old(self)@),
    {
        reveal(signal_shown);
        proof {
            lemma_asked_tasks(
                old(self)@,
                old(self)@.shell_pid,
                RequestKind::ProcFork,
                Some(text::literal("sigdemo")),
            );
        }
        self.ask(
            self.shell_pid,
            RequestKind::ProcFork,
            Some(text::literal_bytes("sigdemo")),
        );
        let child: Pid = match self.start_child() {
            Some(pid) => pid,
            None => {
                return ;
            },
        };
        let action = SignalAction { handler: 0x401000, flags: 0, mask: 0 };
        if let Err(error) = self.set_handler(child, task::SIGUSR1, action) {
            self.write_error(error);
            return ;
        }
        self.ask(
            self.shell_pid,
            RequestKind::ProcSignal,
            Some(text::literal_bytes("SIGUSR1")),
        );
        if let Err(error) = self.send_signal(child, task::SIGUSR1) {
            self.write_error(error);
            return ;
        }
        let frame = match self.take_signal(child) {
            Ok(frame) => frame,
            Err(error) => {
                self.write_error(error);
                return ;
            },
        };
        self.write_filled::<160>(
            Line::new().text("rt_sigframe: pid=").number(child as u64).text(" sig=").number(
                frame.signum as u64,
            ).text(" handler=0x").hexadecimal(frame.handler).text(" restorer=0x").hexadecimal(
                frame.restorer,
            ).text(" ip=0x").hexadecimal(frame.saved_ip).text(" sp=0x").hexadecimal(frame.saved_sp),
        );
        self.ask(child, RequestKind::ProcExit, None);
        self.finish_demo_child(child, "sigdemo");
    }

    fn hold_at(&mut self, pid: Pid, address: u64, observed: u32, expected: u32) -> (result: Result<
        (),
        TaskError,
    >)
        requires
            old(self).wf(),
        ensures
            final(self).wf(),
            (final(self)@, result) == held_at(old(self)@, pid, address, observed, expected),
    {
        reveal(held_at);
        self.tasks.futex_wait(pid, address, observed, expected)
    }

    fn wake_at(&mut self, address: u64, maximum: usize) -> (result: Result<usize, TaskError>)
        requires
            old(self).wf(),
        ensures
            final(self).wf(),
            (final(self)@, result) == woken_at(old(self)@, address, maximum),
    {
        reveal(woken_at);
        self.tasks.futex_wake(address, maximum)
    }

    /// Shows how a child waits at an address.
    pub fn futex_demo(&mut self)
        requires
            old(self).wf(),
        ensures
            final(self).wf(),
            final(self)@ == futex_shown(old(self)@),
    {
        reveal(futex_shown);
        self.ask(
            self.shell_pid,
            RequestKind::ProcFork,
            Some(text::literal_bytes("futexdemo")),
        );
        let child: Pid = match self.start_child() {
            Some(pid) => pid,
            None => {
                return ;
            },
        };
        self.ask(child, RequestKind::ProcFutex, Some(text::literal_bytes("FUTEX_WAIT")));
        if let Err(error) = self.hold_at(child, FUTEX_ADDRESS, 1, 1) {
            self.write_error(error);
            return ;
        }
        let rejected = self.hold_at(self.shell_pid, FUTEX_ADDRESS, 2, 1).is_err();
        self.ask(
            self.shell_pid,
            RequestKind::ProcFutex,
            Some(text::literal_bytes("FUTEX_WAKE")),
        );
        let woken: usize = match self.wake_at(FUTEX_ADDRESS, 1) {
            Ok(woken) => woken,
            Err(error) => {
                self.write_error(error);
                return ;
            },
        };
        self.write_filled::<128>(
            Line::new().text("futex: addr=0x").hexadecimal(FUTEX_ADDRESS).text(
                " wait=ok wake=",
            ).number(woken as u64).text(" value-check=").text(
                if rejected {
                    "EAGAIN"
                } else {
                    "failed"
                },
            ),
        );
        self.finish_demo_child(child, "futexdemo");
    }

    fn hold_in(&mut self, pid: Pid, key: u64) -> (result: Result<(), TaskError>)
        requires
            old(self).wf(),
        ensures
            final(self).wf(),
            (final(self)@, result) == held_in(old(self)@, pid, key),
    {
        reveal(held_in);
        self.tasks.wait_queue_wait(pid, key)
    }

    fn wake_in(&mut self, key: u64, maximum: usize) -> (result: Result<usize, TaskError>)
        requires
            old(self).wf(),
        ensures
            final(self).wf(),
            (final(self)@, result) == woken_in(old(self)@, key, maximum),
    {
        reveal(woken_in);
        self.tasks.wait_queue_wake(key, maximum)
    }

    /// Shows how a child waits in a queue.
    pub fn wait_queue_demo(&mut self)
        requires
            old(self).wf(),
        ensures
            final(self).wf(),
            final(self)@ == queue_shown(old(self)@),
    {
        reveal(queue_shown);
        let child: Pid = match self.start_child() {
            Some(pid) => pid,
            None => {
                return ;
            },
        };
        self.ask(child, RequestKind::ProcWaitQueue, Some(text::literal_bytes("wait")));
        if let Err(error) = self.hold_in(child, QUEUE_KEY) {
            self.write_error(error);
            return ;
        }
        let woken: usize = match self.wake_in(QUEUE_KEY, 1) {
            Ok(woken) => woken,
            Err(error) => {
                self.write_error(error);
                return ;
            },
        };
        self.write_filled::<64>(
            Line::new().text("wait-queue: key=0x").hexadecimal(QUEUE_KEY).text(" wake=").number(
                woken as u64,
            ),
        );
        self.finish_demo_child(child, "waitqdemo");
    }

    fn arm(&mut self, pid: Pid, now_ns: u64) -> (result: Result<u32, TaskError>)
        requires
            old(self).wf(),
        ensures
            final(self).wf(),
            (final(self)@, result) == timer_armed(old(self)@, pid, now_ns),
    {
        reveal(timer_armed);
        self.tasks.arm_timer(pid, now_ns, 1_000_000, 1_000_000)
    }

    fn poll(&mut self, now_ns: u64) -> (result: TimerPollResult)
        requires
            old(self).wf(),
        ensures
            final(self).wf(),
            (final(self)@, result) == due(old(self)@, now_ns),
    {
        reveal(due);
        self.tasks.poll_timers(now_ns)
    }

    fn disarm(&mut self, pid: Pid, timer_id: u32) -> (result: Result<(), TaskError>)
        requires
            old(self).wf(),
        ensures
            final(self).wf(),
            (final(self)@, result) == timer_stopped(old(self)@, pid, timer_id),
    {
        reveal(timer_stopped);
        self.tasks.cancel_timer(pid, timer_id)
    }

    fn notified(&self, pid: Pid) -> (count: u32)
        requires
            self.wf(),
        ensures
            count == notifications(self@, pid),
    {
        reveal(notifications);
        match self.tasks.get_by_pid(pid) {
            Some(task) => task.timer_expirations,
            None => 0,
        }
    }

    /// Shows how a timer notifies a child.
    pub fn timer_demo(&mut self, now_ns: u64)
        requires
            old(self).wf(),
        ensures
            final(self).wf(),
            final(self)@ == timer_shown(old(self)@, now_ns),
    {
        reveal(timer_shown);
        let child: Pid = match self.start_child() {
            Some(pid) => pid,
            None => {
                return ;
            },
        };
        self.ask(child, RequestKind::ProcTimer, Some(text::literal_bytes("periodic")));
        let timer_id: u32 = match self.arm(child, now_ns) {
            Ok(timer_id) => timer_id,
            Err(error) => {
                self.write_error(error);
                return ;
            },
        };
        let result = self.poll(now_ns.saturating_add(3_500_000));
        let count: u32 = self.notified(child);
        self.write_filled::<96>(
            Line::new().text("timer: id=").number(timer_id as u64).text(" expired=").number(
                result.expirations as u64,
            ).text(" rearmed=").number(result.rearmed as u64).text(" notifications=").number(
                count as u64,
            ),
        );
        if let Err(error) = self.disarm(child, timer_id) {
            self.write_error(error);
            return ;
        }
        self.finish_demo_child(child, "timerdemo");
    }

    pub(crate) fn lay_to_sleep(&mut self, pid: Pid, now_ns: u64, duration_ns: u64) -> (error:
        Option<TaskError>)
        requires
            old(self).wf(),
        ensures
            final(self).wf(),
            final(self)@ == asleep(old(self)@, pid, now_ns, duration_ns).0,
            error == asleep(old(self)@, pid, now_ns, duration_ns).1,
    {
        reveal(asleep);
        match self.tasks.sleep_for(pid, now_ns, duration_ns) {
            Ok(_) => None,
            Err(error) => Some(error),
        }
    }

    /// Lets a child fall asleep.
    pub fn sleep_command(&mut self, words: &[Vec<char>], now_ns: u64) -> (sleeper: Option<Sleeper>)
        requires
            old(self).wf(),
        ensures
            final(self).wf(),
            (final(self)@, sleeper) == sleep_started(old(self)@, chars::views(words@), now_ns),
    {
        reveal(sleep_started);
        if words.len() != 2 {
            self.write_line("usage: sleep <milliseconds>");
            return None;
        }
        let time: u64 = match numbers::parse_unsigned(words[1].as_slice(), 10, u64::MAX) {
            Some(time) => time,
            None => 0,
        };
        if time < 1 || time > 5_000 {
            self.write_line("sleep: milliseconds must be between 1 and 5000");
            return None;
        }
        let child: Pid = match self.start_child() {
            Some(pid) => pid,
            None => {
                return None;
            },
        };
        self.ask(child, RequestKind::ProcTimer, Some(text::literal_bytes("sleep")));
        if let Some(error) = self.lay_to_sleep(child, now_ns, time * 1_000_000) {
            self.write_error(error);
            return None;
        }
        Some(Sleeper { child, milliseconds: time })
    }

    pub(crate) fn sleeping(&self, pid: Pid) -> (asleep: bool)
        requires
            self.wf(),
        ensures
            asleep == sleeps(self@, pid),
    {
        reveal(sleeps);
        match self.tasks.get_by_pid(pid) {
            Some(task) => matches!(task.state, TaskState::Sleeping(_, _)),
            None => false,
        }
    }

    /// Looks at the clock while a child sleeps, and says whether it is done.
    pub fn watch_sleeper(&mut self, sleeper: Sleeper, now_ns: u64) -> (done: bool)
        requires
            old(self).wf(),
        ensures
            final(self).wf(),
            (final(self)@, done) == sleep_watched(old(self)@, sleeper, now_ns),
    {
        reveal(sleep_watched);
        let result = self.poll(now_ns);
        if self.sleeping(sleeper.child) {
            return false;
        }
        self.write_filled::<64>(
            Line::new().text("sleep: ").number(sleeper.milliseconds).text(" ms expired=").number(
                result.expirations as u64,
            ).text(" wake=").number(result.woken as u64),
        );
        self.finish_demo_child(sleeper.child, "sleep");
        true
    }
}

/// A child has the next number.
proof fn lemma_fork_number(view: KernelView)
    ensures
        commands::shell_forked(view).1 matches Ok(pid) ==> pid == view.tasks.next_pid,
{
    reveal(commands::shell_forked);
}

/// A request leaves the tasks as they are.
proof fn lemma_asked_tasks(
    view: KernelView,
    caller: Pid,
    request: RequestKind,
    detail: Option<Seq<u8>>,
)
    ensures
        commands::asked(view, caller, request, detail).tasks == view.tasks,
{
    reveal(monitor::logged);
    reveal(monitor::routed);
}

} // verus!
