//! How the kernel starts, and what it shows before its first prompt.
use crate::arch;
use crate::fixed;
use crate::ipc;
use crate::kernel::monitor;
use crate::kernel::monitor::laws;
use crate::kernel::monitor::{Checks, Kernel, KernelView, Service};
use crate::kernel::task;
use crate::kernel::task::{Pid, TaskKind, TaskState};
use crate::lines;
use crate::lines::Line;
use crate::text;
use vstd::prelude::*;

verus! {

/// The first task of the kernel: the one that is there, or a new one.
pub open spec fn first_task(view: KernelView) -> Option<(KernelView, Pid)> {
    match view.tasks.task(1) {
        Some(task) => Some((view, 1)),
        None => {
            let (after, result) = monitor::started(view, None, "kernel", TaskKind::Kernel);
            match result {
                Ok(pid) => Some((after, pid)),
                Err(_) => None,
            }
        },
    }
}

/// The kernel with its own endpoint.
pub open spec fn with_endpoint(view: KernelView, owner: Pid) -> Option<KernelView> {
    match monitor::endpoint_registered(view, owner, Service::Kernel) {
        (after, Ok(_)) => Some(after),
        (after, Err(_)) => None,
    }
}

/// The kernel with one more service.
pub open spec fn with_service(view: Option<KernelView>, parent: Pid, name: Service) -> Option<
    KernelView,
> {
    match view {
        Some(view) => match monitor::registered(view, parent, name) {
            (after, Ok(_)) => Some(after),
            (after, Err(_)) => None,
        },
        None => None,
    }
}

/// The kernel with its shell.
pub open spec fn with_shell(view: Option<KernelView>, parent: Pid) -> Option<KernelView> {
    match view {
        Some(view) => match monitor::started(view, Some(parent), "shell", TaskKind::Shell) {
            (after, Ok(pid)) => Some(
                monitor::put(KernelView { shell_pid: pid, ..after }, pid, TaskState::Running),
            ),
            (after, Err(_)) => None,
        },
        None => None,
    }
}

/// The kernel after its start, unless a table has no room: the first task runs, the kernel,
/// the console, the files, the programs and, where there is one, the network have their
/// endpoints, and the shell runs.
#[verifier::opaque]
pub open spec fn booted(view: KernelView, vfs_namespace: bool, network: bool) -> Option<
    KernelView,
> {
    let checked = KernelView {
        checks: Checks { task_lifecycle: true, ipc: true, vfs_namespace },
        ..view
    };
    match first_task(checked) {
        None => None,
        Some((with_task, pid)) => {
            let running = monitor::put(with_task, pid, TaskState::Running);
            let console = with_service(with_endpoint(running, pid), pid, Service::Console);
            let files = with_service(console, pid, Service::Vfs);
            let programs = with_service(files, pid, Service::Proc);
            let all = if network {
                with_service(programs, pid, Service::Net)
            } else {
                programs
            };
            with_shell(all, pid)
        },
    }
}

/// The word for a check.
pub open spec fn verdict(passed: bool) -> &'static str {
    if passed {
        "ok"
    } else {
        "failed"
    }
}

/// The word for a check.
pub fn verdict_text(passed: bool) -> (word: &'static str)
    ensures
        word == verdict(passed),
{
    if passed {
        "ok"
    } else {
        "failed"
    }
}

/// The pieces of the line on the checks and the tasks.
pub open spec fn summary_pieces(view: KernelView) -> Seq<Seq<u8>> {
    lines::none().push(text::literal("[task] lifecycle=")).push(
        text::literal(verdict(view.checks.task_lifecycle)),
    ).push(text::literal(" ipc=")).push(text::literal(verdict(view.checks.ipc))).push(
        text::literal(" vfs="),
    ).push(text::literal(verdict(view.checks.vfs_namespace))).push(text::literal(" active=")).push(
        fixed::decimal(task::used(view.tasks.tasks, 32)),
    ).push(text::literal(" zombies=")).push(fixed::decimal(task::zombies(view.tasks.tasks, 32)))
}

/// What the monitor shows before its first prompt.
pub open spec fn greeted(view: KernelView) -> KernelView {
    let banner = monitor::said(view, view.machine.platform.info().shell_banner);
    monitor::said(
        monitor::told(banner, summary_pieces(banner), 96),
        "[monitor] ring0 compatibility UI; isolated services use Ring 3 IPC",
    )
}

impl Kernel {
    /// Starts the kernel. Whether the files keep their names apart, and whether there is a
    /// network, is for the machine to say.
    pub fn boot(&mut self, vfs_namespace: bool, network: bool)
        requires
            old(self).wf(),
            old(self)@ == KernelView::fresh(old(self)@.machine) || booted(
                old(self)@,
                vfs_namespace,
                network,
            ) is Some,
        ensures
            final(self).wf(),
            booted(old(self)@, vfs_namespace, network) == Some(final(self)@),
            old(self)@ == KernelView::fresh(old(self)@.machine) ==> final(self)@.tasks.next_pid
                <= 7,
    {
        proof {
            laws::law_fresh_kernels_boot(self@.machine, vfs_namespace, network);
        }
        reveal(booted);
        self.checks = Checks {
            task_lifecycle: task::lifecycle_self_test(),
            ipc: ipc::self_test(),
            vfs_namespace,
        };
        let pid: Pid = match self.tasks.get_by_pid(1) {
            Some(task) => task.pid,
            None => match self.spawn_task(None, "kernel", TaskKind::Kernel) {
                Ok(pid) => pid,
                Err(_) => {
                    return ;
                },
            },
        };
        self.set_state(pid, TaskState::Running);
        let _ = self.register_kernel_endpoint(pid, Service::Kernel);
        let _ = self.register_service(pid, Service::Console);
        let _ = self.register_service(pid, Service::Vfs);
        let _ = self.register_service(pid, Service::Proc);
        if network {
            let _ = self.register_service(pid, Service::Net);
        }
        if let Ok(shell) = self.spawn_task(Some(pid), "shell", TaskKind::Shell) {
            self.shell_pid = shell;
            self.set_state(shell, TaskState::Running);
        }
    }

    /// Shows what stands before the first prompt.
    pub fn run(&mut self)
        requires
            old(self).wf(),
        ensures
            final(self).wf(),
            final(self)@ == greeted(old(self)@),
    {
        self.write_line(arch::shell_banner(self.machine.platform));
        let line = Line::new().text("[task] lifecycle=").text(
            verdict_text(self.checks.task_lifecycle),
        ).text(" ipc=").text(verdict_text(self.checks.ipc)).text(" vfs=").text(
            verdict_text(self.checks.vfs_namespace),
        ).text(" active=").number(self.tasks.active_count() as u64).text(" zombies=").number(
            self.tasks.zombie_count() as u64,
        );
        self.write_filled::<96>(line);
        self.write_line("[monitor] ring0 compatibility UI; isolated services use Ring 3 IPC");
    }

    /// Lets timers that are due expire.
    pub fn poll_task_timers(&mut self, now_ns: u64)
        requires
            old(self).wf(),
        ensures
            final(self).wf(),
            final(self)@ == old(self)@.with_tasks(task::polled(old(self)@.tasks, now_ns, 32).0),
    {
        let _ = self.tasks.poll_timers(now_ns);
    }
}

} // verus!
