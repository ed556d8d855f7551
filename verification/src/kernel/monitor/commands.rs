//! The commands of the shell that act on tasks.
use crate::chars;
use crate::fixed;
use crate::ipc::RequestKind;
use crate::kernel::monitor;
use crate::kernel::monitor::{Kernel, KernelView, Service};
use crate::kernel::task;
use crate::kernel::task::{
    Pid, SchedulingPolicy, Task, TaskError, TaskState, WaitError, WaitResult,
};
use crate::lines;
use crate::lines::Line;
use crate::numbers;
use crate::text;
use vstd::prelude::*;

verus! {

/// A child of the shell.
#[verifier::opaque]
pub open spec fn shell_forked(view: KernelView) -> (KernelView, Result<Pid, TaskError>) {
    let (tasks, result) = task::forked(view.tasks, view.shell_pid);
    (view.with_tasks(tasks), result)
}

/// The end of a task.
#[verifier::opaque]
pub open spec fn ended(view: KernelView, pid: Pid, status: i32) -> (
    KernelView,
    Result<(), TaskError>,
) {
    let (tasks, result) = task::exited(view.tasks, pid, status);
    (view.with_tasks(tasks), result)
}

/// The release of a child of the shell that has exited.
#[verifier::opaque]
pub open spec fn reaped(view: KernelView, target: Option<Pid>, options: u32) -> (
    KernelView,
    Result<Option<WaitResult>, WaitError>,
) {
    let (tasks, result) = task::waited(view.tasks, view.shell_pid, target, options);
    (view.with_tasks(tasks), result)
}

/// A request of a task to the service for programs.
pub open spec fn asked(
    view: KernelView,
    caller: Pid,
    request: RequestKind,
    detail: Option<Seq<u8>>,
) -> KernelView {
    monitor::logged(view, caller, Service::Proc, request, detail).0
}

/// The line on a child that was released.
pub open spec fn reported(view: KernelView, result: WaitResult) -> KernelView {
    monitor::told(
        view,
        lines::none().push(text::literal("reaped pid=")).push(
            fixed::decimal(result.pid as nat),
        ).push(text::literal(" status=")) + lines::signed_pieces(result.status as int),
        64,
    )
}

/// The number behind a command, or a default where there is none.
pub open spec fn exit_status(words: Seq<Seq<char>>) -> Option<int> {
    if words.len() > 1 {
        numbers::signed(words[1], i32::MAX as int)
    } else {
        Some(0)
    }
}

/// A task number.
pub open spec fn pid_of(word: Seq<char>) -> Option<int> {
    numbers::unsigned(word, 10, u32::MAX as int)
}

#[verifier::opaque]
pub open spec fn fork_run(view: KernelView, words: Seq<Seq<char>>) -> KernelView {
    if words.len() > 2 {
        monitor::said(view, "usage: fork [exit-status]")
    } else {
        match exit_status(words) {
            None => monitor::said(view, "fork: invalid exit status"),
            Some(status) => {
                let view = asked(view, view.shell_pid, RequestKind::ProcFork, None);
                match shell_forked(view) {
                    (view, Err(error)) => monitor::failed(view, error),
                    (view, Ok(child)) => {
                        let view = monitor::put(view, child, TaskState::Running);
                        let view = monitor::told(
                            view,
                            lines::none().push(text::literal("fork: parent sees child pid=")).push(
                                fixed::decimal(child as nat),
                            ).push(text::literal(", child return value would be 0")),
                            96,
                        );
                        let view = asked(view, child, RequestKind::ProcExit, None);
                        match ended(view, child, status as i32) {
                            (view, Err(error)) => monitor::failed(view, error),
                            (view, Ok(_)) => monitor::told(
                                view,
                                (lines::none().push(text::literal("fork: child pid=")).push(
                                    fixed::decimal(child as nat),
                                ).push(text::literal(" exited status=")) + lines::signed_pieces(
                                    status,
                                )).push(text::literal("; run `wait4 ")).push(
                                    fixed::decimal(child as nat),
                                ).push(text::literal("`")),
                                96,
                            ),
                        }
                    },
                }
            },
        }
    }
}

/// What a clone shares with the shell, by the word for it.
pub open spec fn clone_flags(mode: Seq<char>) -> Option<u64> {
    if mode == "thread"@ {
        Some(0x10f00)
    } else if mode == "process"@ {
        Some(0x700)
    } else {
        None
    }
}

/// The line on a clone.
pub open spec fn clone_pieces(task: Task) -> Seq<Seq<u8>> {
    lines::none().push(text::literal("clone: pid=")).push(fixed::decimal(task.pid as nat)).push(
        text::literal(" tid="),
    ).push(fixed::decimal(task.tid as nat)).push(text::literal(" tgid=")).push(
        fixed::decimal(task.tgid as nat),
    ).push(text::literal(" pgid=")).push(fixed::decimal(task.pgid as nat)).push(
        text::literal(" sid="),
    ).push(fixed::decimal(task.sid as nat)).push(text::literal(" flags=0x")).push(
        fixed::hexadecimal(task.clone_flags as nat),
    )
}

/// A clone of the shell.
#[verifier::opaque]
pub open spec fn shell_cloned(view: KernelView, flags: u64) -> (
    KernelView,
    Result<Pid, TaskError>,
) {
    let (tasks, result) = task::cloned_task(view.tasks, view.shell_pid, "clone-child", flags);
    (view.with_tasks(tasks), result)
}

/// The line on a task, if it is there.
#[verifier::opaque]
pub open spec fn clone_told(view: KernelView, child: Pid) -> KernelView {
    match view.tasks.task(child) {
        None => view,
        Some(task) => monitor::told(view, clone_pieces(task), 128),
    }
}

/// The word behind `clone`; without one a thread is meant.
pub open spec fn clone_mode(words: Seq<Seq<char>>) -> Seq<char> {
    if words.len() > 1 {
        words[1]
    } else {
        "thread"@
    }
}

#[verifier::opaque]
pub open spec fn clone_run(view: KernelView, words: Seq<Seq<char>>) -> KernelView {
    let mode = clone_mode(words);
    match clone_flags(mode) {
        None => monitor::said(view, "usage: clone [thread|process]"),
        Some(flags) => if words.len() > 2 {
            monitor::said(view, "usage: clone [thread|process]")
        } else {
            let view = asked(
                view,
                view.shell_pid,
                RequestKind::ProcClone,
                Some(chars::encoded(mode)),
            );
            match shell_cloned(view, flags) {
                (view, Err(error)) => monitor::failed(view, error),
                (view, Ok(child)) => {
                    let view = monitor::put(view, child, TaskState::Running);
                    if flags == 0x700 {
                        let view = asked(view, child, RequestKind::ProcExit, None);
                        match ended(view, child, 0) {
                            (view, Err(error)) => monitor::failed(view, error),
                            (view, Ok(_)) => clone_told(view, child),
                        }
                    } else {
                        clone_told(monitor::put(view, child, TaskState::Waiting), child)
                    }
                },
            }
        },
    }
}

/// Children that have exited released one after the other, or only one where the shell
/// does not want to wait, and whether there was one.
pub open spec fn all_reaped(view: KernelView, options: u32, rounds: nat) -> (KernelView, bool)
    decreases rounds,
{
    if rounds == 0 {
        (view, false)
    } else {
        match reaped(view, None, options) {
            (view, Ok(Some(result))) => {
                let view = reported(view, result);
                if options == task::WNOHANG {
                    (view, true)
                } else {
                    (all_reaped(view, options, (rounds - 1) as nat).0, true)
                }
            },
            (view, _) => (view, false),
        }
    }
}

#[verifier::opaque]
pub open spec fn wait_run(view: KernelView, words: Seq<Seq<char>>) -> KernelView {
    if words.len() > 2 {
        monitor::said(view, "usage: wait [pid|all]")
    } else if words.len() > 1 && words[1] == "all"@ {
        match all_reaped(view, 0, 32) {
            (view, true) => view,
            (view, false) => monitor::said(view, "wait: no exited children"),
        }
    } else {
        let pid = if words.len() > 1 {
            pid_of(words[1])
        } else {
            None
        };
        if words.len() > 1 && (pid is None || pid == Some(0int)) {
            monitor::said(view, "wait: invalid pid")
        } else {
            let target = match pid {
                Some(pid) => Some(pid as u32),
                None => None,
            };
            match reaped(view, target, 0) {
                (view, Ok(Some(result))) => reported(view, result),
                (view, Err(WaitError::NoChild)) => monitor::said(view, "wait: no such child"),
                (view, _) => monitor::said(view, "wait: child is still running"),
            }
        }
    }
}

#[verifier::opaque]
pub open spec fn wait4_run(view: KernelView, words: Seq<Seq<char>>) -> KernelView {
    if words.len() > 3 {
        monitor::said(view, "usage: wait4 [pid|0|all] [nohang]")
    } else {
        let detail = if words.len() > 1 {
            Some(chars::encoded(words[1]))
        } else {
            None
        };
        let view = asked(view, view.shell_pid, RequestKind::ProcWait4, detail);
        let options = if words.len() > 2 && words[2] == "nohang"@ {
            task::WNOHANG
        } else {
            0
        };
        if words.len() > 1 && words[1] == "all"@ {
            match all_reaped(view, options, 32) {
                (view, true) => view,
                (view, false) => monitor::said(view, "wait4: no exited children"),
            }
        } else {
            let pid = if words.len() > 1 {
                pid_of(words[1])
            } else {
                None
            };
            if words.len() > 1 && pid is None {
                monitor::said(view, "wait4: invalid pid")
            } else {
                let target = match pid {
                    Some(pid) => Some(pid as u32),
                    None => None,
                };
                match reaped(view, target, options) {
                    (view, Ok(Some(result))) => reported(view, result),
                    (view, Ok(None)) => monitor::said(view, "wait4: no child has exited"),
                    (view, Err(WaitError::NoChild)) => monitor::said(view, "wait4: no such child"),
                    (view, Err(WaitError::WouldBlock)) => monitor::said(
                        view,
                        "wait4: child is still running",
                    ),
                }
            }
        }
    }
}

/// A signal for a task.
#[verifier::opaque]
pub open spec fn signal_sent(view: KernelView, pid: Pid, signal: u8) -> (
    KernelView,
    Result<(), TaskError>,
) {
    let (tasks, result) = task::signalled(view.tasks, pid, signal);
    (view.with_tasks(tasks), result)
}

#[verifier::opaque]
pub open spec fn kill_run(view: KernelView, words: Seq<Seq<char>>) -> KernelView {
    if words.len() < 2 || words.len() > 3 {
        monitor::said(view, "usage: kill <pid> [signal]")
    } else {
        let pid = pid_of(words[1]);
        let signal = if words.len() > 2 {
            numbers::unsigned(words[2], 10, 255)
        } else {
            Some(task::SIGTERM as int)
        };
        if pid is None || pid == Some(0int) {
            monitor::said(view, "kill: invalid pid")
        } else if signal is None {
            monitor::said(view, "kill: invalid signal")
        } else {
            let view = asked(
                view,
                view.shell_pid,
                RequestKind::ProcSignal,
                Some(chars::encoded(words[1])),
            );
            match signal_sent(view, pid.unwrap() as u32, signal.unwrap() as u8) {
                (view, Err(error)) => monitor::failed(view, error),
                (view, Ok(_)) => monitor::told(
                    view,
                    lines::none().push(text::literal("signal ")).push(
                        fixed::decimal(signal.unwrap() as nat),
                    ).push(text::literal(" queued for pid=")).push(
                        fixed::decimal(pid.unwrap() as nat),
                    ),
                    64,
                ),
            }
        }
    }
}

/// A line that says that something was done, or what went wrong.
pub open spec fn answered(
    view: KernelView,
    result: Result<(), TaskError>,
    done: &str,
) -> KernelView {
    match result {
        Ok(_) => monitor::said(view, done),
        Err(error) => monitor::failed(view, error),
    }
}

#[verifier::opaque]
pub open spec fn nice_run(view: KernelView, words: Seq<Seq<char>>) -> KernelView {
    if words.len() != 3 {
        monitor::said(view, "usage: nice <pid> <-20..19>")
    } else {
        let pid = pid_of(words[1]);
        let nice = numbers::signed(words[2], i8::MAX as int);
        if pid is None || nice is None {
            monitor::said(view, "nice: invalid pid or value")
        } else {
            let view = asked(
                view,
                view.shell_pid,
                RequestKind::ProcSched,
                Some(chars::encoded(words[1])),
            );
            let (tasks, result) = task::nice_set(
                view.tasks,
                pid.unwrap() as u32,
                nice.unwrap() as i8,
            );
            answered(view.with_tasks(tasks), result, "nice: updated")
        }
    }
}

/// The policy that a word names.
pub open spec fn policy_of(word: Seq<char>) -> Option<SchedulingPolicy> {
    if word == "other"@ {
        Some(SchedulingPolicy::Normal)
    } else if word == "fifo"@ {
        Some(SchedulingPolicy::Fifo)
    } else if word == "rr"@ {
        Some(SchedulingPolicy::RoundRobin)
    } else {
        None
    }
}

#[verifier::opaque]
pub open spec fn chrt_run(view: KernelView, words: Seq<Seq<char>>) -> KernelView {
    if words.len() < 3 || words.len() > 4 {
        monitor::said(view, "usage: chrt <pid> <other|fifo|rr> [priority]")
    } else {
        let pid = pid_of(words[1]);
        let policy = policy_of(words[2]);
        let priority = if words.len() > 3 {
            numbers::unsigned(words[3], 10, 255)
        } else {
            Some(0)
        };
        if pid is None {
            monitor::said(view, "chrt: invalid pid")
        } else if policy is None {
            monitor::said(view, "chrt: invalid policy")
        } else if priority is None {
            monitor::said(view, "chrt: invalid priority")
        } else if words.len() == 3 && policy != Some(SchedulingPolicy::Normal) {
            monitor::said(view, "chrt: real-time policy requires a priority")
        } else {
            let view = asked(
                view,
                view.shell_pid,
                RequestKind::ProcSched,
                Some(chars::encoded(words[1])),
            );
            let (tasks, result) = task::scheduler_set(
                view.tasks,
                pid.unwrap() as u32,
                policy.unwrap(),
                priority.unwrap() as u8,
            );
            answered(view.with_tasks(tasks), result, "chrt: updated")
        }
    }
}

/// A word without the sign of a hexadecimal number.
pub open spec fn without_prefix(word: Seq<char>) -> Seq<char> {
    if word.len() >= 2 && word[0] == '0' && word[1] == 'x' {
        word.skip(2)
    } else {
        word
    }
}

/// The processors on which a task may run.
#[verifier::opaque]
pub open spec fn confined(view: KernelView, pid: Pid, mask: u64) -> (
    KernelView,
    Result<u64, TaskError>,
) {
    let (tasks, result) = task::affinity_set(view.tasks, pid, mask, view.machine.online_cpus);
    (view.with_tasks(tasks), result)
}

#[verifier::opaque]
pub open spec fn taskset_run(view: KernelView, words: Seq<Seq<char>>) -> KernelView {
    if words.len() != 3 {
        monitor::said(view, "usage: taskset <pid> <hex-mask>")
    } else {
        let pid = pid_of(words[1]);
        let mask = numbers::unsigned(without_prefix(words[2]), 16, u64::MAX as int);
        if pid is None {
            monitor::said(view, "taskset: invalid pid")
        } else if mask is None {
            monitor::said(view, "taskset: invalid hexadecimal mask")
        } else {
            let view = asked(
                view,
                view.shell_pid,
                RequestKind::ProcAffinity,
                Some(chars::encoded(words[1])),
            );
            match confined(view, pid.unwrap() as u32, mask.unwrap() as u64) {
                (view, Err(error)) => monitor::failed(view, error),
                (view, Ok(effective)) => monitor::spread(
                    monitor::told(
                        view,
                        lines::none().push(text::literal("taskset: pid=")).push(
                            fixed::decimal(pid.unwrap() as nat),
                        ).push(text::literal(" mask=0x")).push(
                            fixed::hexadecimal(effective as nat),
                        ),
                        64,
                    ),
                ).0,
            }
        }
    }
}

#[verifier::opaque]
pub open spec fn rebalance_run(view: KernelView) -> KernelView {
    match monitor::spread(view) {
        (view, Err(error)) => monitor::failed(view, error),
        (view, Ok(migrations)) => monitor::told(
            view,
            lines::none().push(text::literal("rebalance: cpus=")).push(
                fixed::decimal(view.machine.online_cpus as nat),
            ).push(text::literal(" migrations=")).push(fixed::decimal(migrations as nat)),
            64,
        ),
    }
}

impl Kernel {
    pub(crate) fn fork_shell(&mut self) -> (result: Result<Pid, TaskError>)
        requires
            old(self).wf(),
        ensures
            final(self).wf(),
            (final(self)@, result) == shell_forked(old(self)@),
    {
        reveal(shell_forked);
        self.tasks.fork(self.shell_pid)
    }

    pub(crate) fn end_task(&mut self, pid: Pid, status: i32) -> (result: Result<(), TaskError>)
        requires
            old(self).wf(),
        ensures
            final(self).wf(),
            (final(self)@, result) == ended(old(self)@, pid, status),
    {
        reveal(ended);
        self.tasks.exit(pid, status)
    }

    pub(crate) fn reap(&mut self, target: Option<Pid>, options: u32) -> (result: Result<
        Option<WaitResult>,
        WaitError,
    >)
        requires
            old(self).wf(),
        ensures
            final(self).wf(),
            (final(self)@, result) == reaped(old(self)@, target, options),
    {
        reveal(reaped);
        self.tasks.wait4(self.shell_pid, target, options)
    }

    pub(crate) fn ask(&mut self, caller: Pid, request: RequestKind, detail: Option<&[u8]>)
        requires
            old(self).wf(),
            detail matches Some(told) ==> vstd::utf8::valid_utf8(told@),
        ensures
            final(self).wf(),
            final(self)@ == asked(
                old(self)@,
                caller,
                request,
                match detail {
                    Some(detail) => Some(detail@),
                    None => None,
                },
            ),
    {
        let _ = self.log_ipc(caller, Service::Proc, request, detail);
    }

    pub(crate) fn report_wait(&mut self, result: WaitResult)
        requires
            old(self).wf(),
        ensures
            final(self).wf(),
            final(self)@ == reported(old(self)@, result),
    {
        self.write_filled::<64>(
            Line::new().text("reaped pid=").number(result.pid as u64).text(" status=").signed(
                result.status as i64,
            ),
        );
    }

    pub fn fork_command(&mut self, words: &[Vec<char>])
        requires
            old(self).wf(),
        ensures
            final(self).wf(),
            final(self)@ == fork_run(old(self)@, chars::views(words@)),
    {
        reveal(fork_run);
        if words.len() > 2 {
            self.write_line("usage: fork [exit-status]");
            return ;
        }
        let mut status: i32 = 0;
        if words.len() > 1 {
            match numbers::parse_signed(words[1].as_slice(), i32::MAX as u32) {
                Some(value) => {
                    status = value as i32;
                },
                None => {
                    self.write_line("fork: invalid exit status");
                    return ;
                },
            }
        }
        self.ask(self.shell_pid, RequestKind::ProcFork, None);
        let child: Pid = match self.fork_shell() {
            Ok(pid) => pid,
            Err(error) => {
                self.write_error(error);
                return ;
            },
        };
        self.set_state(child, TaskState::Running);
        self.write_filled::<96>(
            Line::new().text("fork: parent sees child pid=").number(child as u64).text(
                ", child return value would be 0",
            ),
        );
        self.ask(child, RequestKind::ProcExit, None);
        if let Err(error) = self.end_task(child, status) {
            self.write_error(error);
            return ;
        }
        self.write_filled::<96>(
            Line::new().text("fork: child pid=").number(child as u64).text(
                " exited status=",
            ).signed(status as i64).text("; run `wait4 ").number(child as u64).text("`"),
        );
    }

    fn clone_shell(&mut self, flags: u64) -> (result: Result<Pid, TaskError>)
        requires
            old(self).wf(),
        ensures
            final(self).wf(),
            (final(self)@, result) == shell_cloned(old(self)@, flags),
    {
        reveal(shell_cloned);
        self.tasks.clone_task(self.shell_pid, "clone-child", flags)
    }

    fn tell_clone(&mut self, child: Pid)
        requires
            old(self).wf(),
        ensures
            final(self).wf(),
            final(self)@ == clone_told(old(self)@, child),
    {
        reveal(clone_told);
        if let Some(task) = self.tasks.get_by_pid(child) {
            self.write_filled::<128>(
                Line::new().text("clone: pid=").number(task.pid as u64).text(" tid=").number(
                    task.tid as u64,
                ).text(" tgid=").number(task.tgid as u64).text(" pgid=").number(
                    task.pgid as u64,
                ).text(" sid=").number(task.sid as u64).text(" flags=0x").hexadecimal(
                    task.clone_flags,
                ),
            );
        }
    }

    pub fn clone_command(&mut self, words: &[Vec<char>])
        requires
            old(self).wf(),
        ensures
            final(self).wf(),
            final(self)@ == clone_run(old(self)@, chars::views(words@)),
    {
        reveal(clone_run);
        let default: Vec<char> = chars::chars_of("thread");
        let mode: &[char] = if words.len() > 1 {
            words[1].as_slice()
        } else {
            default.as_slice()
        };
        proof {
            reveal_strlit("thread");
            reveal_strlit("process");
        }
        let flags: u64 = if chars::is(mode, "thread") {
            0x10f00
        } else if chars::is(mode, "process") {
            0x700
        } else {
            0
        };
        if words.len() > 2 || flags == 0 {
            self.write_line("usage: clone [thread|process]");
            return ;
        }
        let detail = chars::encode(mode);
        self.ask(self.shell_pid, RequestKind::ProcClone, Some(detail.as_slice()));
        let child: Pid = match self.clone_shell(flags) {
            Ok(pid) => pid,
            Err(error) => {
                self.write_error(error);
                return ;
            },
        };
        self.set_state(child, TaskState::Running);
        if flags == 0x700 {
            self.ask(child, RequestKind::ProcExit, None);
            if let Err(error) = self.end_task(child, 0) {
                self.write_error(error);
                return ;
            }
        } else {
            self.set_state(child, TaskState::Waiting);
        }
        self.tell_clone(child);
    }

    fn reap_all(&mut self, options: u32, rounds: usize) -> (any: bool)
        requires
            old(self).wf(),
        ensures
            final(self).wf(),
            (final(self)@, any) == all_reaped(old(self)@, options, rounds as nat),
        decreases rounds,
    {
        if rounds == 0 {
            return false;
        }
        match self.reap(None, options) {
            Ok(Some(result)) => {
                self.report_wait(result);
                if options != task::WNOHANG {
                    let _ = self.reap_all(options, rounds - 1);
                }
                true
            },
            _ => false,
        }
    }

    pub fn wait_command(&mut self, words: &[Vec<char>])
        requires
            old(self).wf(),
        ensures
            final(self).wf(),
            final(self)@ == wait_run(old(self)@, chars::views(words@)),
    {
        reveal(wait_run);
        if words.len() > 2 {
            self.write_line("usage: wait [pid|all]");
            return ;
        }
        let mut target: Option<Pid> = None;
        if words.len() > 1 {
            if chars::is(words[1].as_slice(), "all") {
                if !self.reap_all(0, 32) {
                    self.write_line("wait: no exited children");
                }
                return ;
            }
            match numbers::parse_unsigned(words[1].as_slice(), 10, u32::MAX as u64) {
                Some(pid) => {
                    if pid == 0 {
                        self.write_line("wait: invalid pid");
                        return ;
                    }
                    target = Some(pid as u32);
                },
                None => {
                    self.write_line("wait: invalid pid");
                    return ;
                },
            }
        }
        match self.reap(target, 0) {
            Ok(Some(result)) => self.report_wait(result),
            Err(WaitError::NoChild) => self.write_line("wait: no such child"),
            _ => self.write_line("wait: child is still running"),
        }
    }

    pub fn wait4_command(&mut self, words: &[Vec<char>])
        requires
            old(self).wf(),
        ensures
            final(self).wf(),
            final(self)@ == wait4_run(old(self)@, chars::views(words@)),
    {
        reveal(wait4_run);
        if words.len() > 3 {
            self.write_line("usage: wait4 [pid|0|all] [nohang]");
            return ;
        }
        if words.len() > 1 {
            let detail = chars::encode(words[1].as_slice());
            self.ask(self.shell_pid, RequestKind::ProcWait4, Some(detail.as_slice()));
        } else {
            self.ask(self.shell_pid, RequestKind::ProcWait4, None);
        }
        let options: u32 = if words.len() > 2 && chars::is(words[2].as_slice(), "nohang") {
            task::WNOHANG
        } else {
            0
        };
        let mut target: Option<Pid> = None;
        if words.len() > 1 {
            if chars::is(words[1].as_slice(), "all") {
                if !self.reap_all(options, 32) {
                    self.write_line("wait4: no exited children");
                }
                return ;
            }
            match numbers::parse_unsigned(words[1].as_slice(), 10, u32::MAX as u64) {
                Some(pid) => {
                    target = Some(pid as u32);
                },
                None => {
                    self.write_line("wait4: invalid pid");
                    return ;
                },
            }
        }
        match self.reap(target, options) {
            Ok(Some(result)) => self.report_wait(result),
            Ok(None) => self.write_line("wait4: no child has exited"),
            Err(WaitError::NoChild) => self.write_line("wait4: no such child"),
            Err(WaitError::WouldBlock) => self.write_line("wait4: child is still running"),
        }
    }

    pub(crate) fn send_signal(&mut self, pid: Pid, signal: u8) -> (result: Result<(), TaskError>)
        requires
            old(self).wf(),
        ensures
            final(self).wf(),
            (final(self)@, result) == signal_sent(old(self)@, pid, signal),
    {
        reveal(signal_sent);
        self.tasks.send_signal(pid, signal)
    }

    pub fn kill_command(&mut self, words: &[Vec<char>])
        requires
            old(self).wf(),
        ensures
            final(self).wf(),
            final(self)@ == kill_run(old(self)@, chars::views(words@)),
    {
        reveal(kill_run);
        if words.len() < 2 || words.len() > 3 {
            self.write_line("usage: kill <pid> [signal]");
            return ;
        }
        let pid: u32 = match numbers::parse_unsigned(words[1].as_slice(), 10, u32::MAX as u64) {
            Some(pid) => pid as u32,
            None => 0,
        };
        if pid == 0 {
            self.write_line("kill: invalid pid");
            return ;
        }
        let mut signal: u8 = task::SIGTERM;
        if words.len() > 2 {
            match numbers::parse_unsigned(words[2].as_slice(), 10, 255) {
                Some(value) => {
                    signal = value as u8;
                },
                None => {
                    self.write_line("kill: invalid signal");
                    return ;
                },
            }
        }
        let detail = chars::encode(words[1].as_slice());
        self.ask(self.shell_pid, RequestKind::ProcSignal, Some(detail.as_slice()));
        match self.send_signal(pid, signal) {
            Ok(_) => self.write_filled::<64>(
                Line::new().text("signal ").number(signal as u64).text(" queued for pid=").number(
                    pid as u64,
                ),
            ),
            Err(error) => self.write_error(error),
        }
    }

    fn answer(&mut self, result: Result<(), TaskError>, done: &str)
        requires
            old(self).wf(),
        ensures
            final(self).wf(),
            final(self)@ == answered(old(self)@, result, done),
    {
        match result {
            Ok(_) => self.write_line(done),
            Err(error) => self.write_error(error),
        }
    }

    pub fn nice_command(&mut self, words: &[Vec<char>])
        requires
            old(self).wf(),
        ensures
            final(self).wf(),
            final(self)@ == nice_run(old(self)@, chars::views(words@)),
    {
        reveal(nice_run);
        if words.len() != 3 {
            self.write_line("usage: nice <pid> <-20..19>");
            return ;
        }
        let pid = numbers::parse_unsigned(words[1].as_slice(), 10, u32::MAX as u64);
        let nice = numbers::parse_signed(words[2].as_slice(), i8::MAX as u32);
        match (pid, nice) {
            (Some(pid), Some(nice)) => {
                let detail = chars::encode(words[1].as_slice());
                self.ask(self.shell_pid, RequestKind::ProcSched, Some(detail.as_slice()));
                let result = self.tasks.set_nice(pid as u32, nice as i8);
                self.answer(result, "nice: updated");
            },
            _ => self.write_line("nice: invalid pid or value"),
        }
    }

    pub fn chrt_command(&mut self, words: &[Vec<char>])
        requires
            old(self).wf(),
        ensures
            final(self).wf(),
            final(self)@ == chrt_run(old(self)@, chars::views(words@)),
    {
        reveal(chrt_run);
        if words.len() < 3 || words.len() > 4 {
            self.write_line("usage: chrt <pid> <other|fifo|rr> [priority]");
            return ;
        }
        let pid: u32 = match numbers::parse_unsigned(words[1].as_slice(), 10, u32::MAX as u64) {
            Some(pid) => pid as u32,
            None => {
                self.write_line("chrt: invalid pid");
                return ;
            },
        };
        let word = words[2].as_slice();
        let policy = if chars::is(word, "other") {
            SchedulingPolicy::Normal
        } else if chars::is(word, "fifo") {
            SchedulingPolicy::Fifo
        } else if chars::is(word, "rr") {
            SchedulingPolicy::RoundRobin
        } else {
            self.write_line("chrt: invalid policy");
            return ;
        };
        let mut priority: u8 = 0;
        if words.len() > 3 {
            match numbers::parse_unsigned(words[3].as_slice(), 10, 255) {
                Some(value) => {
                    priority = value as u8;
                },
                None => {
                    self.write_line("chrt: invalid priority");
                    return ;
                },
            }
        } else if policy != SchedulingPolicy::Normal {
            self.write_line("chrt: real-time policy requires a priority");
            return ;
        }
        let detail = chars::encode(words[1].as_slice());
        self.ask(self.shell_pid, RequestKind::ProcSched, Some(detail.as_slice()));
        let result = self.tasks.set_scheduler(pid, policy, priority);
        self.answer(result, "chrt: updated");
    }

    fn confine(&mut self, pid: Pid, mask: u64) -> (result: Result<u64, TaskError>)
        requires
            old(self).wf(),
        ensures
            final(self).wf(),
            (final(self)@, result) == confined(old(self)@, pid, mask),
    {
        reveal(confined);
        self.tasks.set_affinity(pid, mask, self.machine.online_cpus)
    }

    pub fn taskset_command(&mut self, words: &[Vec<char>])
        requires
            old(self).wf(),
        ensures
            final(self).wf(),
            final(self)@ == taskset_run(old(self)@, chars::views(words@)),
    {
        reveal(taskset_run);
        if words.len() != 3 {
            self.write_line("usage: taskset <pid> <hex-mask>");
            return ;
        }
        let pid: u32 = match numbers::parse_unsigned(words[1].as_slice(), 10, u32::MAX as u64) {
            Some(pid) => pid as u32,
            None => {
                self.write_line("taskset: invalid pid");
                return ;
            },
        };
        let word = words[2].as_slice();
        let digits: Vec<char> = if word.len() >= 2 && word[0] == '0' && word[1] == 'x' {
            chars::part(word, 2, word.len())
        } else {
            chars::part(word, 0, word.len())
        };
        assert(digits@ =~= without_prefix(word@));
        let mask: u64 = match numbers::parse_unsigned(digits.as_slice(), 16, u64::MAX) {
            Some(mask) => mask,
            None => {
                self.write_line("taskset: invalid hexadecimal mask");
                return ;
            },
        };
        let detail = chars::encode(words[1].as_slice());
        self.ask(self.shell_pid, RequestKind::ProcAffinity, Some(detail.as_slice()));
        match self.confine(pid, mask) {
            Ok(effective) => {
                self.write_filled::<64>(
                    Line::new().text("taskset: pid=").number(pid as u64).text(
                        " mask=0x",
                    ).hexadecimal(effective),
                );
                let _ = self.rebalance_tasks();
            },
            Err(error) => self.write_error(error),
        }
    }

    pub fn rebalance_command(&mut self)
        requires
            old(self).wf(),
        ensures
            final(self).wf(),
            final(self)@ == rebalance_run(old(self)@),
    {
        reveal(rebalance_run);
        match self.rebalance_tasks() {
            Ok(migrations) => self.write_filled::<64>(
                Line::new().text("rebalance: cpus=").number(self.machine.online_cpus as u64).text(
                    " migrations=",
                ).number(migrations as u64),
            ),
            Err(error) => self.write_error(error),
        }
    }
}

} // verus!
